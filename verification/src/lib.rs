//! In-process metrics (counters, gauges, histograms and label-partitioned
//! families) with a verified Open Metrics text exposition encoder.

pub mod encoding;
pub mod metrics;
pub mod registry;

pub use encoding::{
    encode, BucketEncoder, Encode, EncodeMetric, Encoder, SendEncodeMetric, ValueEncoder,
};
pub use metrics::{
    Counter, Family, FloatRepr, Gauge, Histogram, HistogramState, Metric, MetricType, TypedMetric,
    UpperBound,
};
pub use registry::{Registry, Unit};
