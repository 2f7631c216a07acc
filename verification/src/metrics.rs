//! The metric kinds: counters, gauges, histograms and label-partitioned
//! families. Values live behind shared reader/writer locks so clones of a
//! metric handle observe each other's updates.

use std::sync::Arc;
use vstd::prelude::*;
use vstd::rwlock::RwLock;
use vstd::string::StringExecFns;

verus! {

/// Tag naming a metric's kind; decides the token on `# TYPE` lines.
#[derive(Debug, PartialEq, Eq, Structural, Clone, Copy)]
pub enum MetricType {
    Counter,
    Gauge,
    Histogram,
    Unknown,
}

/// A metric kind whose type tag is fixed by its type rather than by a
/// particular value; families of `M` report `M`'s tag.
pub trait TypedMetric: crate::encoding::EncodeMetric {
    spec fn spec_metric_type() -> MetricType;

    /// The sample-group shape of the kind, fixed by the type alone.
    spec fn spec_groups_ok(e: crate::encoding::EncV, gs: Seq<crate::encoding::GroupV>) -> bool;

    fn metric_type_static() -> (t: MetricType)
        ensures
            t == Self::spec_metric_type(),
    ;

    /// Every value of the type reports the type's own tag.
    proof fn type_agrees(&self)
        ensures
            self.metric_type_spec() == Self::spec_metric_type(),
    ;

    /// Every value of the type emits the type's own sample-group shape.
    proof fn groups_ok_agrees(&self, e: crate::encoding::EncV, gs: Seq<crate::encoding::GroupV>)
        ensures
            self.groups_ok(e, gs) == Self::spec_groups_ok(e, gs),
    ;
}

/// The decimal rendering of a 64-bit floating-point value. The verified
/// core does not handle floating point; callers produce the shortest
/// round-trip rendering outside it (for instance with `dtoa`) and pass it
/// in as text.
pub struct FloatRepr {
    pub(crate) repr: String,
}

impl View for FloatRepr {
    type V = Seq<char>;

    closed spec fn view(&self) -> Seq<char> {
        self.repr@
    }
}

impl FloatRepr {
    pub fn new(repr: String) -> (r: Self)
        ensures
            r@ == repr@,
    {
        FloatRepr { repr }
    }

    pub fn as_str(&self) -> (r: &str)
        ensures
            r@ == self@,
    {
        self.repr.as_str()
    }
}

impl Clone for FloatRepr {
    fn clone(&self) -> (r: Self)
        ensures
            r@ == self@,
    {
        FloatRepr { repr: self.repr.clone() }
    }
}

/// Upper bound of one histogram bucket. The final bucket of a histogram
/// carries the `Infinite` sentinel, which renders as the literal `+Inf`.
pub enum UpperBound {
    Finite(FloatRepr),
    Infinite,
}

/// Mathematical model of an [`UpperBound`].
pub enum BoundV {
    Finite(Seq<char>),
    Infinite,
}

impl View for UpperBound {
    type V = BoundV;

    open spec fn view(&self) -> BoundV {
        match self {
            UpperBound::Finite(f) => BoundV::Finite(f@),
            UpperBound::Infinite => BoundV::Infinite,
        }
    }
}

impl Clone for UpperBound {
    fn clone(&self) -> (r: Self)
        ensures
            r@ == self@,
    {
        match self {
            UpperBound::Finite(f) => UpperBound::Finite(f.clone()),
            UpperBound::Infinite => UpperBound::Infinite,
        }
    }
}

/// How a bucket bound renders inside the `le="..."` label.
pub open spec fn bound_token(b: BoundV) -> Seq<char> {
    match b {
        BoundV::Finite(s) => s,
        BoundV::Infinite => "+Inf"@,
    }
}

/// A monotonically increasing counter. Clones share the same storage.
pub struct Counter {
    pub(crate) inner: Arc<RwLock<u64, spec_fn(u64) -> bool>>,
}

impl Counter {
    #[verifier::type_invariant]
    pub closed spec fn wf(self) -> bool {
        forall|v: u64| self.inner.inv(v)
    }

    pub fn new() -> Counter {
        Counter { inner: Arc::new(RwLock::new(0u64, Ghost(|v: u64| true))) }
    }

    /// Adds one to the counter (wrapping on overflow of the storage
    /// width) and returns the previous value.
    pub fn inc(&self) -> u64 {
        proof {
            use_type_invariant(self);
        }
        let (v, handle) = self.inner.acquire_write();
        handle.release_write(v.wrapping_add(1));
        v
    }

    /// A snapshot of the current count. Concurrent increments make the
    /// value valid only for the instant of the read.
    pub fn get(&self) -> u64 {
        let handle = self.inner.acquire_read();
        let v = *handle.borrow();
        handle.release_read();
        v
    }
}

impl Clone for Counter {
    /// A handle to the same underlying storage.
    /// Relies on `Arc::clone`: the returned handle points at the very
    /// same allocation, so it is the same value in the ghost model.
    #[verifier::external_body]
    fn clone(&self) -> (r: Self)
        ensures
            r == *self,
    {
        Counter { inner: Arc::clone(&self.inner) }
    }
}

impl Default for Counter {
    fn default() -> Counter {
        Counter::new()
    }
}

/// An instantaneous reading that can move in both directions. Clones
/// share the same storage.
pub struct Gauge {
    pub(crate) inner: Arc<RwLock<u64, spec_fn(u64) -> bool>>,
}

impl Gauge {
    #[verifier::type_invariant]
    pub closed spec fn wf(self) -> bool {
        forall|v: u64| self.inner.inv(v)
    }

    pub fn new() -> Gauge {
        Gauge { inner: Arc::new(RwLock::new(0u64, Ghost(|v: u64| true))) }
    }

    /// Adds one to the reading (wrapping) and returns the previous value.
    pub fn inc(&self) -> u64 {
        proof {
            use_type_invariant(self);
        }
        let (v, handle) = self.inner.acquire_write();
        handle.release_write(v.wrapping_add(1));
        v
    }

    /// Subtracts one from the reading (wrapping) and returns the previous
    /// value.
    pub fn dec(&self) -> u64 {
        proof {
            use_type_invariant(self);
        }
        let (v, handle) = self.inner.acquire_write();
        handle.release_write(v.wrapping_sub(1));
        v
    }

    /// Replaces the reading and returns the previous value.
    pub fn set(&self, v: u64) -> u64 {
        proof {
            use_type_invariant(self);
        }
        let (prev, handle) = self.inner.acquire_write();
        handle.release_write(v);
        prev
    }

    /// A snapshot of the current reading.
    pub fn get(&self) -> u64 {
        let handle = self.inner.acquire_read();
        let v = *handle.borrow();
        handle.release_read();
        v
    }
}

impl Clone for Gauge {
    /// A handle to the same underlying storage.
    /// Relies on `Arc::clone`: the returned handle points at the very
    /// same allocation, so it is the same value in the ghost model.
    #[verifier::external_body]
    fn clone(&self) -> (r: Self)
        ensures
            r == *self,
    {
        Gauge { inner: Arc::clone(&self.inner) }
    }
}

impl Default for Gauge {
    fn default() -> Gauge {
        Gauge::new()
    }
}

/// One consistent snapshot of a histogram: cumulative sum, cumulative
/// count, and the per-bucket cumulative counts in ascending bound order.
pub struct HistogramState {
    pub sum: FloatRepr,
    pub count: u64,
    pub buckets: Vec<(UpperBound, u64)>,
}

impl HistogramState {
    /// A histogram always carries at least the sentinel bucket, and the
    /// sentinel is last.
    pub open spec fn wf(self) -> bool {
        &&& self.buckets@.len() >= 1
        &&& self.buckets@.last().0@ is Infinite
    }
}

/// A cumulative distribution over configured buckets. Clones share the
/// same storage; reads take one consistent snapshot under a lock.
pub struct Histogram {
    pub(crate) inner: Arc<RwLock<HistogramState, spec_fn(HistogramState) -> bool>>,
}

impl Histogram {
    #[verifier::type_invariant]
    pub closed spec fn lock_wf(self) -> bool {
        forall|s: HistogramState| #[trigger] self.inner.inv(s) <==> s.wf()
    }

    /// Builds a histogram over the given finite bucket bounds, in the
    /// order given (callers supply them ascending), with the `+Inf`
    /// sentinel bucket appended after them. All counts start at zero.
    pub fn new(bounds: Vec<FloatRepr>) -> Histogram {
        let mut buckets: Vec<(UpperBound, u64)> = Vec::new();
        let mut i: usize = 0;
        let n = bounds.len();
        while i < n
            invariant
                i <= n,
                n == bounds@.len(),
            decreases n - i,
        {
            buckets.push((UpperBound::Finite(bounds[i].clone()), 0u64));
            i += 1;
        }
        buckets.push((UpperBound::Infinite, 0u64));
        let st = HistogramState { sum: FloatRepr::new(zero_repr()), count: 0u64, buckets };
        assert(st.wf());
        Histogram { inner: Arc::new(RwLock::new(st, Ghost(|s: HistogramState| s.wf()))) }
    }

    /// Records one observation that fell into the bucket at
    /// `bucket_index` (clamped to the sentinel bucket if out of range):
    /// the cumulative count and every bucket from that index on gain one
    /// (wrapping), and the cumulative sum is replaced by `sum`, which the
    /// caller computed from the observed value.
    pub fn observe_at(&self, bucket_index: usize, sum: FloatRepr) {
        proof {
            use_type_invariant(self);
        }
        let (st, handle) = self.inner.acquire_write();
        let mut buckets: Vec<(UpperBound, u64)> = Vec::new();
        let n = st.buckets.len();
        let first = if bucket_index < n {
            bucket_index
        } else {
            n - 1
        };
        let mut i: usize = 0;
        while i < n
            invariant
                i <= n,
                n == st.buckets@.len(),
                st.wf(),
                buckets@.len() == i,
                forall|j: int| 0 <= j < i ==> #[trigger] buckets@[j].0@ == st.buckets@[j].0@,
            decreases n - i,
        {
            let c = if i >= first {
                st.buckets[i].1.wrapping_add(1)
            } else {
                st.buckets[i].1
            };
            buckets.push((st.buckets[i].0.clone(), c));
            i += 1;
        }
        let new_st = HistogramState {
            sum,
            count: st.count.wrapping_add(1),
            buckets,
        };
        assert(new_st.wf());
        handle.release_write(new_st);
    }

    /// One consistent snapshot of the current state.
    pub fn get(&self) -> (r: HistogramState)
        ensures
            r.wf(),
    {
        proof {
            use_type_invariant(self);
        }
        let handle = self.inner.acquire_read();
        let st = handle.borrow();
        let mut buckets: Vec<(UpperBound, u64)> = Vec::new();
        let n = st.buckets.len();
        let mut i: usize = 0;
        while i < n
            invariant
                i <= n,
                n == st.buckets@.len(),
                st.wf(),
                buckets@.len() == i,
                forall|j: int| 0 <= j < i ==> #[trigger] buckets@[j].0@ == st.buckets@[j].0@,
            decreases n - i,
        {
            buckets.push((st.buckets[i].0.clone(), st.buckets[i].1));
            i += 1;
        }
        let r = HistogramState { sum: st.sum.clone(), count: st.count, buckets };
        handle.release_read();
        assert(r.wf());
        r
    }
}

impl Clone for Histogram {
    /// A handle to the same underlying storage.
    /// Relies on `Arc::clone`: the returned handle points at the very
    /// same allocation, so it is the same value in the ghost model.
    #[verifier::external_body]
    fn clone(&self) -> (r: Self)
        ensures
            r == *self,
    {
        Histogram { inner: Arc::clone(&self.inner) }
    }
}

/// A group of same-named metrics distinguished by label set. The mapping
/// from label set to child metric sits behind a reader/writer lock:
/// encoding takes a read lock for a whole family enumeration, so the
/// insertion of a brand-new label combination blocks until it ends, while
/// updates to existing children go through the children's own storage and
/// are never blocked. Entries are kept, and enumerated, in insertion
/// order.
#[verifier::reject_recursive_types(M)]
pub struct Family<M> {
    pub(crate) inner: Arc<
        RwLock<
            Vec<(Vec<(String, String)>, M)>,
            spec_fn(Vec<(Vec<(String, String)>, M)>) -> bool,
        >,
    >,
}

impl<M> Family<M> {
    #[verifier::type_invariant]
    pub closed spec fn wf(self) -> bool {
        forall|v: Vec<(Vec<(String, String)>, M)>| self.inner.inv(v)
    }

    pub fn new() -> Family<M> {
        Family {
            inner: Arc::new(
                RwLock::new(Vec::new(), Ghost(|v: Vec<(Vec<(String, String)>, M)>| true)),
            ),
        }
    }
}

impl<M: Clone + Default> Family<M> {
    /// The child metric stored under the given label set, created fresh
    /// (as `M::default()`) on first observation. Takes the write lock.
    pub fn get_or_create(&self, label_set: &Vec<(String, String)>) -> M {
        proof {
            use_type_invariant(self);
        }
        let (mut entries, handle) = self.inner.acquire_write();
        let n = entries.len();
        let mut i: usize = 0;
        while i < n
            invariant
                i <= n,
                n == entries@.len(),
                forall|v: Vec<(Vec<(String, String)>, M)>| #[trigger] handle.rwlock().inv(v),
            decreases n - i,
        {
            if labels_equal(&entries[i].0, label_set) {
                let m = entries[i].1.clone();
                handle.release_write(entries);
                return m;
            }
            i += 1;
        }
        let m = M::default();
        entries.push((label_set.clone(), m.clone()));
        handle.release_write(entries);
        m
    }
}

impl<M> Clone for Family<M> {
    /// A handle to the same underlying mapping.
    /// Relies on `Arc::clone`: the returned handle points at the very
    /// same allocation, so it is the same value in the ghost model.
    #[verifier::external_body]
    fn clone(&self) -> (r: Self)
        ensures
            r == *self,
    {
        Family { inner: Arc::clone(&self.inner) }
    }
}

impl<M> Default for Family<M> {
    fn default() -> Family<M> {
        Family::new()
    }
}

/// Whether two label sets hold the same pairs in the same order.
fn labels_equal(a: &Vec<(String, String)>, b: &Vec<(String, String)>) -> bool {
    if a.len() != b.len() {
        return false;
    }
    let n = a.len();
    let mut i: usize = 0;
    while i < n
        invariant
            i <= n,
            n == a@.len(),
            n == b@.len(),
        decreases n - i,
    {
        if !(a[i].0 == b[i].0) || !(a[i].1 == b[i].1) {
            return false;
        }
        i += 1;
    }
    true
}

/// A registry entry's metric handle: any of the metric kinds behind one
/// closed sum, so registries can mix kinds.
pub enum Metric {
    Counter(Counter),
    Gauge(Gauge),
    Histogram(Histogram),
    CounterFamily(Family<Counter>),
    GaugeFamily(Family<Gauge>),
}

/// The zero observation sum a fresh histogram reports.
fn zero_repr() -> (r: String)
    ensures
        r@ == "0.0"@,
{
    let mut s = String::new();
    s.append("0.0");
    proof {
        assert(s@ =~= "0.0"@);
    }
    s
}

} // verus!
