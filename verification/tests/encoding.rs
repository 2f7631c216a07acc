use open_metrics_client::encode;
use open_metrics_client::encoding::encode_counter_value;
use open_metrics_client::metrics::{Counter, Family, FloatRepr, Gauge, Histogram, Metric};
use open_metrics_client::registry::{Registry, Unit};
use openmetrics_parser::openmetrics::parse_openmetrics;
use openmetrics_parser::{MetricsExposition, OpenMetricsType, OpenMetricsValue};

fn float_repr(v: f64) -> FloatRepr {
    let mut buf: Vec<u8> = Vec::new();
    dtoa::write(&mut buf, v).unwrap();
    FloatRepr::new(String::from_utf8(buf).unwrap())
}

fn exponential_series(start: f64, factor: f64, length: usize) -> Vec<FloatRepr> {
    let mut bounds = Vec::new();
    let mut bound = start;
    for _ in 0..length {
        bounds.push(float_repr(bound));
        bound *= factor;
    }
    bounds
}

fn parse_ok(input: &str) -> MetricsExposition<OpenMetricsType, OpenMetricsValue> {
    match parse_openmetrics(input) {
        Ok(exposition) => exposition,
        Err(e) => panic!("document did not parse: {:?}: {:?}", e, input),
    }
}

#[test]
fn encode_counter() {
    let mut registry = Registry::default();
    let counter = Counter::new();
    registry.register("my_counter", "My counter", counter.clone());

    let mut encoded = String::new();
    encode(&mut encoded, &registry);

    parse_ok(&encoded);
}

#[test]
fn encode_counter_with_unit() {
    let mut registry = Registry::default();
    let counter = Counter::new();
    registry.register_with_unit("my_counter", "My counter", Unit::Seconds, counter.clone());

    let mut encoded = String::new();
    encode(&mut encoded, &registry);

    let expected = "# HELP my_counter_seconds My counter.\n".to_owned()
        + "# TYPE my_counter_seconds counter\n"
        + "# UNIT my_counter_seconds seconds\n"
        + "my_counter_seconds_total 0\n"
        + "# EOF\n";
    assert_eq!(expected, encoded);

    parse_ok(&encoded);
}

#[test]
fn encode_gauge() {
    let mut registry = Registry::default();
    let gauge = Gauge::new();
    registry.register("my_gauge", "My gauge", gauge.clone());

    let mut encoded = String::new();
    encode(&mut encoded, &registry);

    parse_ok(&encoded);
}

#[test]
fn encode_counter_family() {
    let mut registry = Registry::default();
    let family = Family::<Counter>::default();
    registry.register("my_counter_family", "My counter family", family.clone());

    family
        .get_or_create(&vec![("method".to_string(), "GET".to_string())])
        .inc();

    let mut encoded = String::new();
    encode(&mut encoded, &registry);

    parse_ok(&encoded);
}

#[test]
fn encode_histogram() {
    let mut registry = Registry::default();
    let histogram = Histogram::new(exponential_series(1.0, 2.0, 10));
    registry.register("my_histogram", "My histogram", histogram.clone());
    histogram.observe_at(0, float_repr(1.0));

    let mut encoded = String::new();
    encode(&mut encoded, &registry);

    parse_ok(&encoded);
}

#[test]
fn empty_registry_is_only_eof() {
    let registry: Registry<Counter> = Registry::default();
    let mut encoded = String::new();
    encode(&mut encoded, &registry);
    assert_eq!("# EOF\n", encoded);
}

#[test]
fn counter_exact_output_after_one_increment() {
    let mut registry = Registry::default();
    let counter = Counter::new();
    registry.register("my_counter", "This is my counter", counter.clone());
    counter.inc();

    let mut encoded = String::new();
    encode(&mut encoded, &registry);

    let expected = "# HELP my_counter This is my counter.\n".to_owned()
        + "# TYPE my_counter counter\n"
        + "my_counter_total 1\n"
        + "# EOF\n";
    assert_eq!(expected, encoded);
}

#[test]
fn gauge_exact_output_large_value() {
    let mut registry = Registry::default();
    let gauge = Gauge::new();
    registry.register("my_gauge", "My gauge", gauge.clone());
    gauge.set(1234567890123456789);

    let mut encoded = String::new();
    encode(&mut encoded, &registry);

    let expected = "# HELP my_gauge My gauge.\n".to_owned()
        + "# TYPE my_gauge gauge\n"
        + "my_gauge 1234567890123456789\n"
        + "# EOF\n";
    assert_eq!(expected, encoded);
}

#[test]
fn label_set_renders_in_one_brace_pair() {
    let mut registry = Registry::default();
    let family = Family::<Counter>::default();
    registry.register("my_family", "My family", family.clone());

    family
        .get_or_create(&vec![
            ("method".to_string(), "GET".to_string()),
            ("status".to_string(), "200".to_string()),
        ])
        .inc();

    let mut encoded = String::new();
    encode(&mut encoded, &registry);

    let expected = "# HELP my_family My family.\n".to_owned()
        + "# TYPE my_family counter\n"
        + "my_family_total{method=\"GET\",status=\"200\"} 1\n"
        + "# EOF\n";
    assert_eq!(expected, encoded);
}

#[test]
fn family_members_keep_insertion_order() {
    let mut registry = Registry::default();
    let family = Family::<Counter>::default();
    registry.register("requests", "Requests", family.clone());

    family
        .get_or_create(&vec![("method".to_string(), "GET".to_string())])
        .inc();
    family
        .get_or_create(&vec![("method".to_string(), "POST".to_string())])
        .inc();
    family
        .get_or_create(&vec![("method".to_string(), "GET".to_string())])
        .inc();

    let mut encoded = String::new();
    encode(&mut encoded, &registry);

    let expected = "# HELP requests Requests.\n".to_owned()
        + "# TYPE requests counter\n"
        + "requests_total{method=\"GET\"} 2\n"
        + "requests_total{method=\"POST\"} 1\n"
        + "# EOF\n";
    assert_eq!(expected, encoded);
}

#[test]
fn histogram_exact_output() {
    let mut registry = Registry::default();
    let histogram = Histogram::new(vec![float_repr(1.0), float_repr(2.0)]);
    registry.register("lat", "Latency", histogram.clone());
    histogram.observe_at(1, float_repr(1.5));

    let mut encoded = String::new();
    encode(&mut encoded, &registry);

    let expected = "# HELP lat Latency.\n".to_owned()
        + "# TYPE lat histogram\n"
        + "lat_sum 1.5\n"
        + "lat_count 1\n"
        + "lat_bucket{le=\"1.0\"} 0\n"
        + "lat_bucket{le=\"2.0\"} 1\n"
        + "lat_bucket{le=\"+Inf\"} 1\n"
        + "# EOF\n";
    assert_eq!(expected, encoded);
}

#[test]
fn unobserved_histogram_emits_zeroed_lines() {
    let mut registry = Registry::default();
    let histogram = Histogram::new(vec![float_repr(1.0)]);
    registry.register("lat", "Latency", histogram);

    let mut encoded = String::new();
    encode(&mut encoded, &registry);

    let expected = "# HELP lat Latency.\n".to_owned()
        + "# TYPE lat histogram\n"
        + "lat_sum 0.0\n"
        + "lat_count 0\n"
        + "lat_bucket{le=\"1.0\"} 0\n"
        + "lat_bucket{le=\"+Inf\"} 0\n"
        + "# EOF\n";
    assert_eq!(expected, encoded);
    parse_ok(&encoded);
}

#[test]
fn unit_other_renders_its_text() {
    let mut registry = Registry::default();
    let gauge = Gauge::new();
    registry.register_with_unit("distance", "Distance", Unit::Other("parsecs".to_string()), gauge);

    let mut encoded = String::new();
    encode(&mut encoded, &registry);

    let expected = "# HELP distance_parsecs Distance.\n".to_owned()
        + "# TYPE distance_parsecs gauge\n"
        + "# UNIT distance_parsecs parsecs\n"
        + "distance_parsecs 0\n"
        + "# EOF\n";
    assert_eq!(expected, encoded);
}

#[test]
fn encoding_twice_is_byte_identical() {
    let mut registry = Registry::default();
    let family = Family::<Counter>::default();
    registry.register("requests", "Requests", family.clone());
    family
        .get_or_create(&vec![("method".to_string(), "GET".to_string())])
        .inc();

    let mut first = String::new();
    encode(&mut first, &registry);
    let mut second = String::new();
    encode(&mut second, &registry);
    assert_eq!(first, second);
}

#[test]
fn mixed_registry_round_trips_with_matching_types() {
    let mut registry = Registry::default();
    let counter = Counter::new();
    counter.inc();
    registry.register("hits", "Hits", Metric::Counter(counter));
    let gauge = Gauge::new();
    gauge.set(7);
    registry.register("depth", "Depth", Metric::Gauge(gauge));
    let histogram = Histogram::new(vec![float_repr(1.0)]);
    registry.register("lat", "Latency", Metric::Histogram(histogram));

    let mut encoded = String::new();
    encode(&mut encoded, &registry);

    let exposition = parse_ok(&encoded);
    assert_eq!(3, exposition.families.len());
    assert_eq!(
        OpenMetricsType::Counter,
        exposition.families.get("hits").unwrap().family_type
    );
    assert_eq!(
        OpenMetricsType::Gauge,
        exposition.families.get("depth").unwrap().family_type
    );
    assert_eq!(
        OpenMetricsType::Histogram,
        exposition.families.get("lat").unwrap().family_type
    );
}

#[test]
fn counter_value_encoder_writes_decimal_digits() {
    let encoder = open_metrics_client::Encoder {
        name: "n".to_string(),
        unit: None,
        labels: None,
    };
    let mut out = String::new();
    encode_counter_value(&mut out, &encoder, 905);
    assert_eq!("n_total 905\n", out);
}
