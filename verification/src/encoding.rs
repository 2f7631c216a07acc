//! Open Metrics text exposition: the value codec, the staged per-line
//! encoder, the per-kind metric encoders and the top-level driver.
//!
//! The output of [`encode`] is pinned, byte for byte, to the spec-level
//! rendering functions in this module: `document_str` over the registry's
//! view and the per-metric sample groups.

use vstd::prelude::*;
use vstd::string::StringExecFns;
use crate::metrics::{
    BoundV, Counter, Family, FloatRepr, Gauge, Histogram, HistogramState, Metric, MetricType,
    TypedMetric, UpperBound, bound_token,
};
use crate::registry::{Descriptor, EntryV, Registry, Unit, UnitV, unit_token};

verus! {

// ---------------------------------------------------------------------
// Decimal rendering of unsigned integers
// ---------------------------------------------------------------------
/// The character for one decimal digit.
pub open spec fn dec_digit(d: int) -> char {
    if d == 0 {
        '0'
    } else if d == 1 {
        '1'
    } else if d == 2 {
        '2'
    } else if d == 3 {
        '3'
    } else if d == 4 {
        '4'
    } else if d == 5 {
        '5'
    } else if d == 6 {
        '6'
    } else if d == 7 {
        '7'
    } else if d == 8 {
        '8'
    } else {
        '9'
    }
}

/// Base-10 rendering of a non-negative integer, most significant digit
/// first, no sign, no padding, no separators.
pub open spec fn dec_str(n: int) -> Seq<char>
    decreases n,
{
    if n < 10 {
        seq![dec_digit(n)]
    } else {
        dec_str(n / 10).push(dec_digit(n % 10))
    }
}

/// Appends the decimal digits of `v`.
/// Relies on `itoa::fmt`, which formats an unsigned integer in base 10,
/// most significant digit first, with no sign, padding or separators.
#[verifier::external_body]
fn write_u64_decimal(writer: &mut String, v: u64)
    ensures
        final(writer)@ == old(writer)@ + dec_str(v as int),
{
    let _ = itoa::fmt(&mut *writer, v);
}

// ---------------------------------------------------------------------
// The value codec
// ---------------------------------------------------------------------
/// Serialization of one primitive value into the output text.
pub trait Encode {
    /// The exact characters `encode` appends.
    spec fn enc(&self) -> Seq<char>;

    fn encode(&self, writer: &mut String)
        ensures
            final(writer)@ == old(writer)@ + self.enc(),
    ;
}

impl Encode for u64 {
    open spec fn enc(&self) -> Seq<char> {
        dec_str(*self as int)
    }

    fn encode(&self, writer: &mut String) {
        write_u64_decimal(writer, *self);
    }
}

impl Encode for String {
    open spec fn enc(&self) -> Seq<char> {
        self@
    }

    fn encode(&self, writer: &mut String) {
        writer.append(self.as_str());
    }
}

impl Encode for FloatRepr {
    open spec fn enc(&self) -> Seq<char> {
        self@
    }

    fn encode(&self, writer: &mut String) {
        writer.append(self.as_str());
    }
}

/// The token a metric type renders as on `# TYPE` lines.
pub open spec fn type_token(t: MetricType) -> Seq<char> {
    match t {
        MetricType::Counter => "counter"@,
        MetricType::Gauge => "gauge"@,
        MetricType::Histogram => "histogram"@,
        MetricType::Unknown => "unknown"@,
    }
}

impl Encode for MetricType {
    open spec fn enc(&self) -> Seq<char> {
        type_token(*self)
    }

    fn encode(&self, writer: &mut String) {
        match self {
            MetricType::Counter => writer.append("counter"),
            MetricType::Gauge => writer.append("gauge"),
            MetricType::Histogram => writer.append("histogram"),
            MetricType::Unknown => writer.append("unknown"),
        }
    }
}

impl Encode for Unit {
    open spec fn enc(&self) -> Seq<char> {
        unit_token(self@)
    }

    fn encode(&self, writer: &mut String) {
        match self {
            Unit::Amperes => writer.append("amperes"),
            Unit::Bytes => writer.append("bytes"),
            Unit::Celsius => writer.append("celsius"),
            Unit::Grams => writer.append("grams"),
            Unit::Joules => writer.append("joules"),
            Unit::Meters => writer.append("meters"),
            Unit::Ratios => writer.append("ratios"),
            Unit::Seconds => writer.append("seconds"),
            Unit::Volts => writer.append("volts"),
            Unit::Other(s) => writer.append(s.as_str()),
        }
    }
}

// ---------------------------------------------------------------------
// Label sets
// ---------------------------------------------------------------------
/// Rendering of one `name="value"` pair.
pub open spec fn pair_str(p: (String, String)) -> Seq<char> {
    p.0@ + "=\""@ + p.1@ + "\""@
}

/// Rendering of the pairs from index `i` on: comma-separated, no
/// trailing comma.
pub open spec fn labels_str_from(ls: Seq<(String, String)>, i: int) -> Seq<char>
    decreases ls.len() - i,
{
    if i < 0 || i >= ls.len() {
        Seq::empty()
    } else if i + 1 < ls.len() {
        pair_str(ls[i]) + ","@ + labels_str_from(ls, i + 1)
    } else {
        pair_str(ls[i])
    }
}

/// Rendering of an ordered label set, without surrounding braces; the
/// empty set renders as the empty string.
pub open spec fn labels_str(ls: Seq<(String, String)>) -> Seq<char> {
    labels_str_from(ls, 0)
}

impl Encode for Vec<(String, String)> {
    open spec fn enc(&self) -> Seq<char> {
        labels_str(self@)
    }

    fn encode(&self, writer: &mut String) {
        let ghost orig = writer@;
        let n = self.len();
        let mut i: usize = 0;
        while i < n
            invariant
                i <= n,
                n == self@.len(),
                writer@ + labels_str_from(self@, i as int) == orig + labels_str(self@),
            decreases n - i,
        {
            let ghost w0 = writer@;
            let p = &self[i];
            writer.append(p.0.as_str());
            writer.append("=\"");
            writer.append(p.1.as_str());
            writer.append("\"");
            if i + 1 < n {
                writer.append(",");
            }
            proof {
                if i + 1 < n {
                    assert(writer@ =~= w0 + pair_str(self@[i as int]) + ","@);
                    assert(writer@ + labels_str_from(self@, i as int + 1) =~= w0 + labels_str_from(
                        self@,
                        i as int,
                    ));
                } else {
                    assert(writer@ =~= w0 + pair_str(self@[i as int]));
                    assert(writer@ + labels_str_from(self@, i as int + 1) =~= w0 + labels_str_from(
                        self@,
                        i as int,
                    ));
                }
            }
            i += 1;
        }
        proof {
            assert(writer@ =~= writer@ + labels_str_from(self@, n as int));
            assert(writer@ =~= orig + labels_str(self@));
        }
    }
}

// ---------------------------------------------------------------------
// The staged per-line encoder
// ---------------------------------------------------------------------
/// The metric name followed, when a unit is present, by `_<unit>`.
pub open spec fn name_unit_str(name: Seq<char>, unit: Option<UnitV>) -> Seq<char> {
    match unit {
        Some(u) => name + "_"@ + unit_token(u),
        None => name,
    }
}

/// The `_<suffix>` part of a sample line, empty when there is none.
pub open spec fn suffix_part(suffix: Option<Seq<char>>) -> Seq<char> {
    match suffix {
        Some(s) => "_"@ + s,
        None => Seq::empty(),
    }
}

/// The opening brace and label-set rendering, empty when no label set is
/// attached.
pub open spec fn open_part(labels: Option<Seq<char>>) -> Seq<char> {
    match labels {
        Some(l) => "{"@ + l,
        None => Seq::empty(),
    }
}

/// What closes the label block: either a plain closing brace (only if one
/// was opened), or a synthetic `le="<bound>"` label followed by the
/// closing brace, opening the block first if no label set had done so.
pub open spec fn bucket_part(opened: bool, le: Option<BoundV>) -> Seq<char> {
    match le {
        None => if opened {
            "}"@
        } else {
            Seq::empty()
        },
        Some(b) => (if opened {
            ", "@
        } else {
            "{"@
        }) + "le=\""@ + bound_token(b) + "\"}"@,
    }
}

/// One full sample line: name, unit, optional suffix, optional label
/// block, optional bucket label, a space, the value, a newline.
pub open spec fn sample_line(
    name: Seq<char>,
    unit: Option<UnitV>,
    suffix: Option<Seq<char>>,
    labels: Option<Seq<char>>,
    le: Option<BoundV>,
    value: Seq<char>,
) -> Seq<char> {
    name_unit_str(name, unit) + suffix_part(suffix) + open_part(labels) + bucket_part(
        labels is Some,
        le,
    ) + " "@ + value + "\n"@
}

/// Mathematical model of an [`Encoder`]: the name and unit it is bound
/// to, and the rendering of the attached label set, if any.
pub struct EncV {
    pub name: Seq<char>,
    pub unit: Option<UnitV>,
    pub labels: Option<Seq<char>>,
}

/// The first stage of writing one sample group: bound to a metric name
/// and unit, optionally scoped to a label set.
pub struct Encoder {
    pub name: String,
    pub unit: Option<Unit>,
    pub labels: Option<String>,
}

impl View for Encoder {
    type V = EncV;

    open spec fn view(&self) -> EncV {
        EncV {
            name: self.name@,
            unit: match &self.unit {
                Some(u) => Some(u@),
                None => None,
            },
            labels: match &self.labels {
                Some(l) => Some(l@),
                None => None,
            },
        }
    }
}

fn clone_unit_opt(unit: &Option<Unit>) -> (r: Option<Unit>)
    ensures
        (match r {
            Some(u) => unit matches Some(x) && u@ == x@,
            None => unit is None,
        }),
{
    match unit {
        Some(u) => Some(u.clone()),
        None => None,
    }
}

impl Encoder {
    fn write_name_and_unit(&self, writer: &mut String)
        ensures
            final(writer)@ == old(writer)@ + name_unit_str(self@.name, self@.unit),
    {
        let ghost orig = writer@;
        writer.append(self.name.as_str());
        if let Some(u) = &self.unit {
            writer.append("_");
            u.encode(writer);
        }
        proof {
            assert(writer@ =~= orig + name_unit_str(self@.name, self@.unit));
        }
    }

    fn encode_labels(&self, writer: &mut String) -> (b: BucketEncoder)
        ensures
            final(writer)@ == old(writer)@ + open_part(self@.labels),
            b.opened_curly_brackets == self@.labels is Some,
    {
        let ghost orig = writer@;
        match &self.labels {
            Some(l) => {
                writer.append("{");
                writer.append(l.as_str());
                proof {
                    assert(writer@ =~= orig + open_part(self@.labels));
                }
                BucketEncoder { opened_curly_brackets: true }
            },
            None => {
                proof {
                    assert(writer@ =~= orig + open_part(self@.labels));
                }
                BucketEncoder { opened_curly_brackets: false }
            },
        }
    }

    /// Writes the name, unit and `_<suffix>`, then opens the label block
    /// if a label set is attached.
    pub fn encode_suffix(&self, writer: &mut String, suffix: &str) -> (b: BucketEncoder)
        ensures
            final(writer)@ == old(writer)@ + name_unit_str(self@.name, self@.unit) + suffix_part(
                Some(suffix@),
            ) + open_part(self@.labels),
            b.opened_curly_brackets == self@.labels is Some,
    {
        let ghost orig = writer@;
        self.write_name_and_unit(writer);
        writer.append("_");
        writer.append(suffix);
        let b = self.encode_labels(writer);
        proof {
            assert(writer@ =~= orig + name_unit_str(self@.name, self@.unit) + suffix_part(
                Some(suffix@),
            ) + open_part(self@.labels));
        }
        b
    }

    /// Writes the name and unit with no suffix, then opens the label
    /// block if a label set is attached.
    pub fn no_suffix(&self, writer: &mut String) -> (b: BucketEncoder)
        ensures
            final(writer)@ == old(writer)@ + name_unit_str(self@.name, self@.unit) + suffix_part(None)
                + open_part(self@.labels),
            b.opened_curly_brackets == self@.labels is Some,
    {
        let ghost orig = writer@;
        self.write_name_and_unit(writer);
        let b = self.encode_labels(writer);
        proof {
            assert(writer@ =~= orig + name_unit_str(self@.name, self@.unit) + suffix_part(None)
                + open_part(self@.labels));
        }
        b
    }

    /// A new encoder bound to the same name and unit, scoped to the given
    /// label set. Its rendering is fixed here, once, and written on every
    /// line the derived encoder produces. Attaching a second label set to
    /// one sample group is a programming error; the precondition refuses
    /// it.
    pub fn with_label_set<S: Encode>(&self, label_set: &S) -> (e: Encoder)
        requires
            self@.labels is None,
        ensures
            e@.name == self@.name,
            e@.unit == self@.unit,
            e@.labels == Some(label_set.enc()),
    {
        self.scoped(label_set)
    }

    /// The unguarded form of [`Self::with_label_set`]: replaces whatever
    /// label set is attached. Family enumeration uses it, since the
    /// encoder it works from is not statically known to be unscoped.
    pub(crate) fn scoped<S: Encode>(&self, label_set: &S) -> (e: Encoder)
        ensures
            e@.name == self@.name,
            e@.unit == self@.unit,
            e@.labels == Some(label_set.enc()),
    {
        let mut rendered = String::new();
        label_set.encode(&mut rendered);
        proof {
            assert(rendered@ =~= label_set.enc());
        }
        Encoder {
            name: self.name.clone(),
            unit: clone_unit_opt(&self.unit),
            labels: Some(rendered),
        }
    }
}

/// The stage that decides how the label block closes: plainly, or with a
/// synthetic `le` label for histogram buckets.
#[must_use]
pub struct BucketEncoder {
    pub opened_curly_brackets: bool,
}

impl BucketEncoder {
    /// Appends the `le="<bound>"` label (separating or opening the block
    /// as needed) and closes the block.
    pub(crate) fn encode_bucket(&self, writer: &mut String, upper_bound: &UpperBound) -> (v:
        ValueEncoder)
        ensures
            final(writer)@ == old(writer)@ + bucket_part(
                self.opened_curly_brackets,
                Some(upper_bound@),
            ),
    {
        let ghost orig = writer@;
        if self.opened_curly_brackets {
            writer.append(", ");
        } else {
            writer.append("{");
        }
        writer.append("le=\"");
        match upper_bound {
            UpperBound::Finite(f) => writer.append(f.as_str()),
            UpperBound::Infinite => writer.append("+Inf"),
        }
        writer.append("\"}");
        proof {
            assert(writer@ =~= orig + bucket_part(self.opened_curly_brackets, Some(upper_bound@)));
        }
        ValueEncoder {  }
    }

    /// Closes the label block, if one was opened.
    pub(crate) fn no_bucket(&self, writer: &mut String) -> (v: ValueEncoder)
        ensures
            final(writer)@ == old(writer)@ + bucket_part(self.opened_curly_brackets, None),
    {
        if self.opened_curly_brackets {
            writer.append("}");
        }
        ValueEncoder {  }
    }
}

/// The terminal stage: writes the sample's value and ends the line.
#[must_use]
pub struct ValueEncoder {}

impl ValueEncoder {
    /// Writes a space, the serialized value, and the trailing newline.
    pub(crate) fn encode_value<V: Encode>(&self, writer: &mut String, v: &V)
        ensures
            final(writer)@ == old(writer)@ + " "@ + v.enc() + "\n"@,
    {
        let ghost orig = writer@;
        writer.append(" ");
        v.encode(writer);
        writer.append("\n");
        proof {
            assert(writer@ =~= orig + " "@ + v.enc() + "\n"@);
        }
    }
}

// ---------------------------------------------------------------------
// Sample groups: what one metric emits against one encoder
// ---------------------------------------------------------------------
/// The payload of one sample group, by metric kind.
pub enum GroupData {
    Counter { value: u64 },
    Gauge { value: u64 },
    Histogram { sum: Seq<char>, count: u64, buckets: Seq<(BoundV, u64)> },
}

/// One sample group: the lines one metric instance emits, under one
/// (optional) label set.
pub struct GroupV {
    pub labels: Option<Seq<char>>,
    pub data: GroupData,
}

/// The model of a bucket vector.
pub open spec fn buckets_view(bs: Seq<(UpperBound, u64)>) -> Seq<(BoundV, u64)> {
    bs.map_values(|p: (UpperBound, u64)| (p.0@, p.1))
}

/// The `_bucket` lines of a histogram group, one per bucket, in order.
pub open spec fn bucket_lines(
    name: Seq<char>,
    unit: Option<UnitV>,
    labels: Option<Seq<char>>,
    buckets: Seq<(BoundV, u64)>,
) -> Seq<char>
    decreases buckets.len(),
{
    if buckets.len() == 0 {
        Seq::empty()
    } else {
        bucket_lines(name, unit, labels, buckets.drop_last()) + sample_line(
            name,
            unit,
            Some("bucket"@),
            labels,
            Some(buckets.last().0),
            dec_str(buckets.last().1 as int),
        )
    }
}

/// The full rendering of one sample group.
pub open spec fn group_render(name: Seq<char>, unit: Option<UnitV>, g: GroupV) -> Seq<char> {
    match g.data {
        GroupData::Counter { value } => sample_line(
            name,
            unit,
            Some("total"@),
            g.labels,
            None,
            dec_str(value as int),
        ),
        GroupData::Gauge { value } => sample_line(
            name,
            unit,
            None,
            g.labels,
            None,
            dec_str(value as int),
        ),
        GroupData::Histogram { sum, count, buckets } => sample_line(
            name,
            unit,
            Some("sum"@),
            g.labels,
            None,
            sum,
        ) + sample_line(name, unit, Some("count"@), g.labels, None, dec_str(count as int))
            + bucket_lines(name, unit, g.labels, buckets),
    }
}

/// The concatenated rendering of a sequence of sample groups.
pub open spec fn groups_render(name: Seq<char>, unit: Option<UnitV>, gs: Seq<GroupV>) -> Seq<char>
    decreases gs.len(),
{
    if gs.len() == 0 {
        Seq::empty()
    } else {
        groups_render(name, unit, gs.drop_last()) + group_render(name, unit, gs.last())
    }
}

/// Whether a group's payload is of the given metric kind.
pub open spec fn group_matches(g: GroupV, t: MetricType) -> bool {
    match g.data {
        GroupData::Counter { .. } => t is Counter,
        GroupData::Gauge { .. } => t is Gauge,
        GroupData::Histogram { .. } => t is Histogram,
    }
}

/// Whether every group in the sequence is of the given metric kind.
pub open spec fn groups_match(gs: Seq<GroupV>, t: MetricType) -> bool {
    forall|i: int| 0 <= i < gs.len() ==> group_matches(#[trigger] gs[i], t)
}

/// The concatenation of a sequence of sample-group sequences.
pub open spec fn concat_groups(parts: Seq<Seq<GroupV>>) -> Seq<GroupV>
    decreases parts.len(),
{
    if parts.len() == 0 {
        Seq::empty()
    } else {
        concat_groups(parts.drop_last()) + parts.last()
    }
}

pub proof fn lemma_groups_render_concat(
    name: Seq<char>,
    unit: Option<UnitV>,
    a: Seq<GroupV>,
    b: Seq<GroupV>,
)
    ensures
        groups_render(name, unit, a + b) == groups_render(name, unit, a) + groups_render(
            name,
            unit,
            b,
        ),
    decreases b.len(),
{
    if b.len() == 0 {
        assert(a + b =~= a);
        assert(groups_render(name, unit, a) + groups_render(name, unit, b) =~= groups_render(
            name,
            unit,
            a,
        ));
    } else {
        lemma_groups_render_concat(name, unit, a, b.drop_last());
        assert((a + b).drop_last() =~= a + b.drop_last());
        assert((a + b).last() == b.last());
        assert(groups_render(name, unit, a + b) =~= groups_render(name, unit, a) + groups_render(
            name,
            unit,
            b,
        ));
    }
}

// ---------------------------------------------------------------------
// The metric-encoding capability
// ---------------------------------------------------------------------
/// A metric that can emit its sample lines against a per-entry encoder.
/// Whatever state the metric reads, what it appends is the rendering of
/// a sequence of sample groups of its own kind and of its own shape:
/// each implementation pins that shape through `groups_ok`.
pub trait EncodeMetric {
    /// The type tag this value reports.
    spec fn metric_type_spec(&self) -> MetricType;

    /// Which sample-group sequences this metric can emit against an
    /// encoder bound to `e`: one group per sample group the kind owes,
    /// under the label sets the kind owes.
    spec fn groups_ok(&self, e: EncV, gs: Seq<GroupV>) -> bool;

    fn encode(&self, writer: &mut String, encoder: &Encoder)
        ensures
            exists|gs: Seq<GroupV>|
                {
                    &&& final(writer)@ == old(writer)@ + groups_render(
                        encoder@.name,
                        encoder@.unit,
                        gs,
                    )
                    &&& groups_match(gs, self.metric_type_spec())
                    &&& self.groups_ok(encoder@, gs)
                },
    ;

    fn metric_type(&self) -> (t: MetricType)
        ensures
            t == self.metric_type_spec(),
    ;
}

// ---------------------------------------------------------------------
// Per-kind encoders
// ---------------------------------------------------------------------
/// Emits the one sample line of a counter standing at `value`: suffix
/// `_total`, no bucket label.
pub fn encode_counter_value(writer: &mut String, encoder: &Encoder, value: u64)
    ensures
        final(writer)@ == old(writer)@ + group_render(
            encoder@.name,
            encoder@.unit,
            GroupV { labels: encoder@.labels, data: GroupData::Counter { value } },
        ),
{
    let b = encoder.encode_suffix(writer, "total");
    let ve = b.no_bucket(writer);
    ve.encode_value(writer, &value);
    proof {
        assert(writer@ =~= old(writer)@ + group_render(
            encoder@.name,
            encoder@.unit,
            GroupV { labels: encoder@.labels, data: GroupData::Counter { value } },
        ));
    }
}

/// Emits the one sample line of a gauge reading `value`: no suffix, no
/// bucket label.
pub fn encode_gauge_value(writer: &mut String, encoder: &Encoder, value: u64)
    ensures
        final(writer)@ == old(writer)@ + group_render(
            encoder@.name,
            encoder@.unit,
            GroupV { labels: encoder@.labels, data: GroupData::Gauge { value } },
        ),
{
    let b = encoder.no_suffix(writer);
    let ve = b.no_bucket(writer);
    ve.encode_value(writer, &value);
    proof {
        assert(writer@ =~= old(writer)@ + group_render(
            encoder@.name,
            encoder@.unit,
            GroupV { labels: encoder@.labels, data: GroupData::Gauge { value } },
        ));
    }
}

/// Emits the lines of one histogram snapshot: `_sum`, `_count`, then one
/// `_bucket` line per stored bucket, in stored (ascending-bound) order,
/// each carrying the `le` label.
#[verifier::rlimit(100)]
pub fn encode_histogram_state(writer: &mut String, encoder: &Encoder, state: &HistogramState)
    ensures
        final(writer)@ == old(writer)@ + group_render(
            encoder@.name,
            encoder@.unit,
            GroupV {
                labels: encoder@.labels,
                data: GroupData::Histogram {
                    sum: state.sum@,
                    count: state.count,
                    buckets: buckets_view(state.buckets@),
                },
            },
        ),
{
    let ghost s1 = sample_line(
        encoder@.name,
        encoder@.unit,
        Some("sum"@),
        encoder@.labels,
        None,
        state.sum@,
    );
    let ghost s2 = sample_line(
        encoder@.name,
        encoder@.unit,
        Some("count"@),
        encoder@.labels,
        None,
        dec_str(state.count as int),
    );
    let b = encoder.encode_suffix(writer, "sum");
    let ve = b.no_bucket(writer);
    ve.encode_value(writer, &state.sum);
    proof {
        assert(writer@ =~= old(writer)@ + s1);
    }
    let b = encoder.encode_suffix(writer, "count");
    let ve = b.no_bucket(writer);
    ve.encode_value(writer, &state.count);
    proof {
        assert(writer@ =~= old(writer)@ + s1 + s2);
    }
    let ghost head = writer@;
    let ghost bv = buckets_view(state.buckets@);
    let n = state.buckets.len();
    let mut i: usize = 0;
    proof {
        assert(bv.take(0) =~= Seq::<(BoundV, u64)>::empty());
        assert(writer@ =~= head + bucket_lines(encoder@.name, encoder@.unit, encoder@.labels,
            bv.take(0)));
    }
    while i < n
        invariant
            i <= n,
            n == state.buckets@.len(),
            bv == buckets_view(state.buckets@),
            writer@ == head + bucket_lines(
                encoder@.name,
                encoder@.unit,
                encoder@.labels,
                bv.take(i as int),
            ),
        decreases n - i,
    {
        let ghost w0 = writer@;
        let b = encoder.encode_suffix(writer, "bucket");
        let ve = b.encode_bucket(writer, &state.buckets[i].0);
        ve.encode_value(writer, &state.buckets[i].1);
        proof {
            assert(bv[i as int] == (state.buckets@[i as int].0@, state.buckets@[i as int].1));
            assert(bv.take(i as int + 1).drop_last() =~= bv.take(i as int));
            assert(bv.take(i as int + 1).last() == bv[i as int]);
            let line = sample_line(
                encoder@.name,
                encoder@.unit,
                Some("bucket"@),
                encoder@.labels,
                Some(bv[i as int].0),
                dec_str(bv[i as int].1 as int),
            );
            assert(bucket_lines(encoder@.name, encoder@.unit, encoder@.labels, bv.take(i as int + 1))
                == bucket_lines(encoder@.name, encoder@.unit, encoder@.labels, bv.take(i as int))
                + line);
            assert(writer@ =~= w0 + line);
            assert(writer@ =~= head + bucket_lines(
                encoder@.name,
                encoder@.unit,
                encoder@.labels,
                bv.take(i as int + 1),
            ));
        }
        i += 1;
    }
    proof {
        assert(bv.take(n as int) =~= bv);
        let bl = bucket_lines(encoder@.name, encoder@.unit, encoder@.labels, bv);
        assert(writer@ == head + bl);
        assert(writer@ =~= old(writer)@ + (s1 + s2 + bl));
        assert(group_render(
            encoder@.name,
            encoder@.unit,
            GroupV {
                labels: encoder@.labels,
                data: GroupData::Histogram {
                    sum: state.sum@,
                    count: state.count,
                    buckets: bv,
                },
            },
        ) == s1 + s2 + bl);
    }
}

/// Turns the fact that one group was appended into the trait's
/// one-group-sequence form.
proof fn lemma_single_group(name: Seq<char>, unit: Option<UnitV>, g: GroupV)
    ensures
        groups_render(name, unit, seq![g]) == group_render(name, unit, g),
{
    let gs = seq![g];
    assert(gs.drop_last() =~= Seq::<GroupV>::empty());
    assert(gs.last() == g);
    assert(groups_render(name, unit, Seq::<GroupV>::empty()) == Seq::<char>::empty());
    assert(groups_render(name, unit, gs.drop_last()) == Seq::<char>::empty());
    assert(groups_render(name, unit, gs) =~= group_render(name, unit, g));
}

impl EncodeMetric for Counter {
    open spec fn metric_type_spec(&self) -> MetricType {
        MetricType::Counter
    }

    /// Exactly one sample group, under the encoder's label set, holding
    /// some reading of the counter.
    open spec fn groups_ok(&self, e: EncV, gs: Seq<GroupV>) -> bool {
        exists|v: u64| #![auto]
            gs == seq![GroupV { labels: e.labels, data: GroupData::Counter { value: v } }]
    }

    fn encode(&self, writer: &mut String, encoder: &Encoder) {
        let v = self.get();
        encode_counter_value(writer, encoder, v);
        proof {
            let g = GroupV { labels: encoder@.labels, data: GroupData::Counter { value: v } };
            lemma_single_group(encoder@.name, encoder@.unit, g);
            assert(writer@ == old(writer)@ + groups_render(encoder@.name, encoder@.unit, seq![g]));
            assert(groups_match(seq![g], self.metric_type_spec()));
            assert(self.groups_ok(encoder@, seq![g]));
        }
    }

    fn metric_type(&self) -> (t: MetricType) {
        MetricType::Counter
    }
}

impl TypedMetric for Counter {
    open spec fn spec_metric_type() -> MetricType {
        MetricType::Counter
    }

    open spec fn spec_groups_ok(e: EncV, gs: Seq<GroupV>) -> bool {
        exists|m: Counter| #![auto] m.groups_ok(e, gs)
    }

    fn metric_type_static() -> (t: MetricType) {
        MetricType::Counter
    }

    proof fn type_agrees(&self) {
    }

    proof fn groups_ok_agrees(&self, e: EncV, gs: Seq<GroupV>) {
        if self.groups_ok(e, gs) {
            assert(Self::spec_groups_ok(e, gs));
        }
        if Self::spec_groups_ok(e, gs) {
            let m = choose|m: Counter| m.groups_ok(e, gs);
            assert(self.groups_ok(e, gs));
        }
    }
}

impl EncodeMetric for Gauge {
    open spec fn metric_type_spec(&self) -> MetricType {
        MetricType::Gauge
    }

    /// Exactly one sample group, under the encoder's label set, holding
    /// some reading of the gauge.
    open spec fn groups_ok(&self, e: EncV, gs: Seq<GroupV>) -> bool {
        exists|v: u64| #![auto]
            gs == seq![GroupV { labels: e.labels, data: GroupData::Gauge { value: v } }]
    }

    fn encode(&self, writer: &mut String, encoder: &Encoder) {
        let v = self.get();
        encode_gauge_value(writer, encoder, v);
        proof {
            let g = GroupV { labels: encoder@.labels, data: GroupData::Gauge { value: v } };
            lemma_single_group(encoder@.name, encoder@.unit, g);
            assert(writer@ == old(writer)@ + groups_render(encoder@.name, encoder@.unit, seq![g]));
            assert(groups_match(seq![g], self.metric_type_spec()));
            assert(self.groups_ok(encoder@, seq![g]));
        }
    }

    fn metric_type(&self) -> (t: MetricType) {
        MetricType::Gauge
    }
}

impl TypedMetric for Gauge {
    open spec fn spec_metric_type() -> MetricType {
        MetricType::Gauge
    }

    open spec fn spec_groups_ok(e: EncV, gs: Seq<GroupV>) -> bool {
        exists|m: Gauge| #![auto] m.groups_ok(e, gs)
    }

    fn metric_type_static() -> (t: MetricType) {
        MetricType::Gauge
    }

    proof fn type_agrees(&self) {
    }

    proof fn groups_ok_agrees(&self, e: EncV, gs: Seq<GroupV>) {
        if self.groups_ok(e, gs) {
            assert(Self::spec_groups_ok(e, gs));
        }
        if Self::spec_groups_ok(e, gs) {
            let m = choose|m: Gauge| m.groups_ok(e, gs);
            assert(self.groups_ok(e, gs));
        }
    }
}

impl EncodeMetric for Histogram {
    open spec fn metric_type_spec(&self) -> MetricType {
        MetricType::Histogram
    }

    /// Exactly one sample group, under the encoder's label set, holding
    /// some well-formed snapshot: at least one bucket, the sentinel
    /// bound stored last.
    open spec fn groups_ok(&self, e: EncV, gs: Seq<GroupV>) -> bool {
        exists|sum: Seq<char>, count: u64, buckets: Seq<(BoundV, u64)>| #![auto]
            {
                &&& buckets.len() >= 1
                &&& buckets.last().0 is Infinite
                &&& gs == seq![
                    GroupV { labels: e.labels, data: GroupData::Histogram { sum, count, buckets } },
                ]
            }
    }

    fn encode(&self, writer: &mut String, encoder: &Encoder) {
        let state = self.get();
        encode_histogram_state(writer, encoder, &state);
        proof {
            let bv = buckets_view(state.buckets@);
            let g = GroupV {
                labels: encoder@.labels,
                data: GroupData::Histogram { sum: state.sum@, count: state.count, buckets: bv },
            };
            lemma_single_group(encoder@.name, encoder@.unit, g);
            assert(writer@ == old(writer)@ + groups_render(encoder@.name, encoder@.unit, seq![g]));
            assert(groups_match(seq![g], self.metric_type_spec()));
            assert(bv.len() == state.buckets@.len());
            assert(bv.last() == (state.buckets@.last().0@, state.buckets@.last().1));
            assert(bv.last().0 is Infinite);
            assert(self.groups_ok(encoder@, seq![g]));
        }
    }

    fn metric_type(&self) -> (t: MetricType) {
        MetricType::Histogram
    }
}

impl TypedMetric for Histogram {
    open spec fn spec_metric_type() -> MetricType {
        MetricType::Histogram
    }

    open spec fn spec_groups_ok(e: EncV, gs: Seq<GroupV>) -> bool {
        exists|m: Histogram| #![auto] m.groups_ok(e, gs)
    }

    fn metric_type_static() -> (t: MetricType) {
        MetricType::Histogram
    }

    proof fn type_agrees(&self) {
    }

    proof fn groups_ok_agrees(&self, e: EncV, gs: Seq<GroupV>) {
        if self.groups_ok(e, gs) {
            assert(Self::spec_groups_ok(e, gs));
        }
        if Self::spec_groups_ok(e, gs) {
            let m = choose|m: Histogram| m.groups_ok(e, gs);
            assert(self.groups_ok(e, gs));
        }
    }
}

impl<M: EncodeMetric + TypedMetric> EncodeMetric for Family<M> {
    open spec fn metric_type_spec(&self) -> MetricType {
        M::spec_metric_type()
    }

    /// One sample-group sequence per member, in enumeration order, each
    /// one a sequence the member kind can emit under that member's own
    /// label rendering.
    open spec fn groups_ok(&self, e: EncV, gs: Seq<GroupV>) -> bool {
        exists|parts: Seq<Seq<GroupV>>, ls: Seq<Seq<char>>| #![auto]
            {
                &&& parts.len() == ls.len()
                &&& gs == concat_groups(parts)
                &&& forall|k: int| #![trigger parts[k]]
                    0 <= k < parts.len() ==> M::spec_groups_ok(
                        EncV { name: e.name, unit: e.unit, labels: Some(ls[k]) },
                        parts[k],
                    )
            }
    }

    fn encode(&self, writer: &mut String, encoder: &Encoder) {
        let handle = self.inner.acquire_read();
        let entries = handle.borrow();
        let ghost mut gs: Seq<GroupV> = Seq::empty();
        let ghost mut parts: Seq<Seq<GroupV>> = Seq::empty();
        let ghost mut ls: Seq<Seq<char>> = Seq::empty();
        let ghost orig = writer@;
        let n = entries.len();
        let mut i: usize = 0;
        proof {
            assert(groups_render(encoder@.name, encoder@.unit, gs) =~= Seq::<char>::empty());
            assert(writer@ =~= orig + groups_render(encoder@.name, encoder@.unit, gs));
        }
        while i < n
            invariant
                i <= n,
                n == entries@.len(),
                writer@ == orig + groups_render(encoder@.name, encoder@.unit, gs),
                groups_match(gs, M::spec_metric_type()),
                parts.len() == ls.len(),
                gs == concat_groups(parts),
                forall|k: int| #![trigger parts[k]]
                    0 <= k < parts.len() ==> M::spec_groups_ok(
                        EncV { name: encoder@.name, unit: encoder@.unit, labels: Some(ls[k]) },
                        parts[k],
                    ),
            decreases n - i,
    {
            let ghost w0 = writer@;
            let ghost gs0 = gs;
            let derived = encoder.scoped(&entries[i].0);
            entries[i].1.encode(writer, &derived);
            proof {
                entries@[i as int].1.type_agrees();
                let childl = entries@[i as int].0.enc();
                let ghost de = EncV {
                    name: encoder@.name,
                    unit: encoder@.unit,
                    labels: Some(childl),
                };
                assert(derived@ == EncV {
                    name: encoder@.name,
                    unit: encoder@.unit,
                    labels: Some(childl),
                });
                let child = choose|c: Seq<GroupV>|
                    writer@ == w0 + groups_render(derived@.name, derived@.unit, c)
                        && groups_match(c, entries@[i as int].1.metric_type_spec())
                        && entries@[i as int].1.groups_ok(derived@, c);
                lemma_groups_render_concat(encoder@.name, encoder@.unit, gs0, child);
                gs = gs0 + child;
                let parts0 = parts;
                let ls0 = ls;
                parts = parts.push(child);
                ls = ls.push(childl);
                assert(concat_groups(parts) == concat_groups(parts0) + child) by {
                    assert(parts.drop_last() =~= parts0);
                    assert(parts.last() == child);
                };
                assert(writer@ == orig + groups_render(encoder@.name, encoder@.unit, gs));
                entries@[i as int].1.groups_ok_agrees(de, child);
                assert forall|k: int| #![trigger parts[k]]
                    0 <= k < parts.len() implies M::spec_groups_ok(
                        EncV { name: encoder@.name, unit: encoder@.unit, labels: Some(ls[k]) },
                        parts[k],
                    ) by {
                    if k < parts0.len() {
                        assert(parts[k] == parts0[k]);
                        assert(ls[k] == ls0[k]);
                    } else {
                        assert(parts[k] == child);
                        assert(ls[k] == childl);
                        assert(M::spec_groups_ok(de, child));
                    }
                }
            }
            i += 1;
        }
        handle.release_read();
        proof {
            assert(writer@ == old(writer)@ + groups_render(encoder@.name, encoder@.unit, gs)
                && groups_match(gs, self.metric_type_spec()));
            assert(self.groups_ok(encoder@, gs));
        }
    }

    fn metric_type(&self) -> (t: MetricType) {
        M::metric_type_static()
    }
}

impl EncodeMetric for Metric {
    open spec fn metric_type_spec(&self) -> MetricType {
        match self {
            Metric::Counter(_) => MetricType::Counter,
            Metric::Gauge(_) => MetricType::Gauge,
            Metric::Histogram(_) => MetricType::Histogram,
            Metric::CounterFamily(_) => MetricType::Counter,
            Metric::GaugeFamily(_) => MetricType::Gauge,
        }
    }

    /// Exactly what the wrapped metric can emit: the wrapper forwards
    /// the encode call unchanged.
    open spec fn groups_ok(&self, e: EncV, gs: Seq<GroupV>) -> bool {
        match self {
            Metric::Counter(m) => m.groups_ok(e, gs),
            Metric::Gauge(m) => m.groups_ok(e, gs),
            Metric::Histogram(m) => m.groups_ok(e, gs),
            Metric::CounterFamily(m) => m.groups_ok(e, gs),
            Metric::GaugeFamily(m) => m.groups_ok(e, gs),
        }
    }

    fn encode(&self, writer: &mut String, encoder: &Encoder) {
        match self {
            Metric::Counter(m) => {
                m.encode(writer, encoder);
                proof {
                    let gs = choose|c: Seq<GroupV>|
                        writer@ == old(writer)@ + groups_render(encoder@.name, encoder@.unit, c)
                            && groups_match(c, m.metric_type_spec()) && m.groups_ok(encoder@, c);
                    assert(groups_match(gs, self.metric_type_spec()));
                    assert(self.groups_ok(encoder@, gs));
                }
            },
            Metric::Gauge(m) => {
                m.encode(writer, encoder);
                proof {
                    let gs = choose|c: Seq<GroupV>|
                        writer@ == old(writer)@ + groups_render(encoder@.name, encoder@.unit, c)
                            && groups_match(c, m.metric_type_spec()) && m.groups_ok(encoder@, c);
                    assert(groups_match(gs, self.metric_type_spec()));
                    assert(self.groups_ok(encoder@, gs));
                }
            },
            Metric::Histogram(m) => {
                m.encode(writer, encoder);
                proof {
                    let gs = choose|c: Seq<GroupV>|
                        writer@ == old(writer)@ + groups_render(encoder@.name, encoder@.unit, c)
                            && groups_match(c, m.metric_type_spec()) && m.groups_ok(encoder@, c);
                    assert(groups_match(gs, self.metric_type_spec()));
                    assert(self.groups_ok(encoder@, gs));
                }
            },
            Metric::CounterFamily(m) => {
                m.encode(writer, encoder);
                proof {
                    let gs = choose|c: Seq<GroupV>|
                        writer@ == old(writer)@ + groups_render(encoder@.name, encoder@.unit, c)
                            && groups_match(c, m.metric_type_spec()) && m.groups_ok(encoder@, c);
                    assert(groups_match(gs, self.metric_type_spec()));
                    assert(self.groups_ok(encoder@, gs));
                }
            },
            Metric::GaugeFamily(m) => {
                m.encode(writer, encoder);
                proof {
                    let gs = choose|c: Seq<GroupV>|
                        writer@ == old(writer)@ + groups_render(encoder@.name, encoder@.unit, c)
                            && groups_match(c, m.metric_type_spec()) && m.groups_ok(encoder@, c);
                    assert(groups_match(gs, self.metric_type_spec()));
                    assert(self.groups_ok(encoder@, gs));
                }
            },
        }
    }

    fn metric_type(&self) -> (t: MetricType) {
        match self {
            Metric::Counter(_) => MetricType::Counter,
            Metric::Gauge(_) => MetricType::Gauge,
            Metric::Histogram(_) => MetricType::Histogram,
            Metric::CounterFamily(_) => MetricType::Counter,
            Metric::GaugeFamily(_) => MetricType::Gauge,
        }
    }
}

/// A metric that can also cross threads; anything both encodable and
/// sendable qualifies.
pub trait SendEncodeMetric: EncodeMetric + Send {

}

impl<T: EncodeMetric + Send> SendEncodeMetric for T {

}

// ---------------------------------------------------------------------
// The top-level driver
// ---------------------------------------------------------------------
/// The `# HELP` line of one registry entry.
pub open spec fn help_line(e: EntryV) -> Seq<char> {
    "# HELP "@ + name_unit_str(e.name, e.unit) + " "@ + e.help + "\n"@
}

/// The `# TYPE` line of one entry.
pub open spec fn type_line(e: EntryV) -> Seq<char> {
    "# TYPE "@ + name_unit_str(e.name, e.unit) + " "@ + type_token(e.mtype) + "\n"@
}

/// The `# HELP`, `# TYPE` and (when a unit is present) `# UNIT` lines of
/// one registry entry.
pub open spec fn header_str(e: EntryV) -> Seq<char> {
    help_line(e) + type_line(e) + unit_header_str(e)
}

/// The `# UNIT` line of one entry; empty when no unit was registered.
pub open spec fn unit_header_str(e: EntryV) -> Seq<char> {
    match e.unit {
        Some(u) => "# UNIT "@ + name_unit_str(e.name, e.unit) + " "@ + unit_token(u) + "\n"@,
        None => Seq::empty(),
    }
}

/// Everything one registry entry contributes: its header lines followed
/// by its sample groups.
pub open spec fn entry_str(e: EntryV, gs: Seq<GroupV>) -> Seq<char> {
    header_str(e) + groups_render(e.name, e.unit, gs)
}

/// The renderings of the first `n` registry entries, in order.
pub open spec fn doc_body(entries: Seq<EntryV>, gss: Seq<Seq<GroupV>>, n: int) -> Seq<char>
    decreases n,
{
    if n <= 0 {
        Seq::empty()
    } else {
        doc_body(entries, gss, n - 1) + entry_str(entries[n - 1], gss[n - 1])
    }
}

/// A whole exposition document: every entry in registration order, then
/// the terminal `# EOF` line.
pub open spec fn document_str(entries: Seq<EntryV>, gss: Seq<Seq<GroupV>>) -> Seq<char> {
    doc_body(entries, gss, entries.len() as int) + "# EOF\n"@
}

/// The registry entry a descriptor and type tag describe.
pub open spec fn desc_entry(name: Seq<char>, help: Seq<char>, unit: Option<UnitV>, t: MetricType) -> EntryV {
    EntryV { name, help, unit, mtype: t }
}

/// Writes the header lines of one entry.
#[verifier::rlimit(50)]
fn write_header(writer: &mut String, desc: &Descriptor, t: MetricType)
    ensures
        final(writer)@ == old(writer)@ + header_str(
            desc_entry(
                desc.name@,
                desc.help@,
                match &desc.unit {
                    Some(u) => Some(u@),
                    None => None,
                },
                t,
            ),
        ),
{
    let ghost e = desc_entry(
        desc.name@,
        desc.help@,
        match &desc.unit {
            Some(u) => Some(u@),
            None => None,
        },
        t,
    );
    let ghost w0 = writer@;
    writer.append("# HELP ");
    writer.append(desc.name.as_str());
    if let Some(u) = &desc.unit {
        writer.append("_");
        u.encode(writer);
    }
    writer.append(" ");
    writer.append(desc.help.as_str());
    writer.append("\n");
    proof {
        assert(writer@ =~= w0 + help_line(e));
    }
    let ghost wh = writer@;
    writer.append("# TYPE ");
    writer.append(desc.name.as_str());
    if let Some(u) = &desc.unit {
        writer.append("_");
        u.encode(writer);
    }
    writer.append(" ");
    t.encode(writer);
    writer.append("\n");
    proof {
        assert(writer@ =~= wh + type_line(e));
    }
    let ghost wt = writer@;
    if let Some(u) = &desc.unit {
        writer.append("# UNIT ");
        writer.append(desc.name.as_str());
        writer.append("_");
        u.encode(writer);
        writer.append(" ");
        u.encode(writer);
        writer.append("\n");
    }
    proof {
        assert(writer@ =~= wt + unit_header_str(e));
        assert(writer@ =~= w0 + header_str(e));
    }
}

/// Encodes the registry into the Open Metrics text format: for each entry
/// in registration order its header lines and sample lines, then the
/// terminal marker. The output is exactly `document_str` of the
/// registry's entries and of one sample-group sequence per entry, each of
/// the entry's own metric kind: the text appended is a function of the
/// registry's view and of the values the metrics' storage yielded during
/// this pass, and of nothing else.
#[verifier::rlimit(100)]
pub fn encode<M: EncodeMetric>(writer: &mut String, registry: &Registry<M>)
    ensures
        exists|gss: Seq<Seq<GroupV>>|
            {
                &&& gss.len() == registry@.len()
                &&& final(writer)@ == old(writer)@ + document_str(registry@, gss)
                &&& forall|i: int|
                    0 <= i < gss.len() ==> groups_match(#[trigger] gss[i], registry@[i].mtype)
                &&& forall|i: int|
                    0 <= i < gss.len() ==> registry.entries@[i].1.groups_ok(
                        EncV { name: registry@[i].name, unit: registry@[i].unit, labels: None },
                        #[trigger] gss[i],
                    )
            },
{
    let ghost orig = writer@;
    let ghost mut gss: Seq<Seq<GroupV>> = Seq::empty();
    let n = registry.len();
    let mut idx: usize = 0;
    while idx < n
        invariant
            idx <= n,
            n == registry@.len(),
            n == registry.entries@.len(),
            gss.len() == idx,
            writer@ == orig + doc_body(registry@, gss, idx as int),
            forall|i: int| 0 <= i < idx ==> groups_match(#[trigger] gss[i], registry@[i].mtype),
            forall|i: int|
                0 <= i < idx ==> registry.entries@[i].1.groups_ok(
                    EncV { name: registry@[i].name, unit: registry@[i].unit, labels: None },
                    #[trigger] gss[i],
                ),
        decreases n - idx,
    {
        let ghost w0 = writer@;
        let ghost e = registry@[idx as int];
        let desc = &registry.entries[idx].0;
        let metric = &registry.entries[idx].1;
        let t = metric.metric_type();
        write_header(writer, desc, t);
        proof {
            assert(e == desc_entry(
                desc.name@,
                desc.help@,
                match &desc.unit {
                    Some(u) => Some(u@),
                    None => None,
                },
                t,
            ));
            assert(writer@ == w0 + header_str(e));
        }
        let ghost w1 = writer@;
        let encoder = Encoder {
            name: desc.name.clone(),
            unit: clone_unit_opt(&desc.unit),
            labels: None,
        };
        metric.encode(writer, &encoder);
        proof {
            assert(encoder@.name == e.name);
            assert(encoder@.unit == e.unit);
            assert(encoder@ == EncV { name: e.name, unit: e.unit, labels: None });
            let gs = choose|c: Seq<GroupV>|
                writer@ == w1 + groups_render(encoder@.name, encoder@.unit, c) && groups_match(
                    c,
                    metric.metric_type_spec(),
                ) && metric.groups_ok(encoder@, c);
            let ghost gss0 = gss;
            gss = gss.push(gs);
            assert(gss[idx as int] == gs);
            assert(forall|i: int| 0 <= i < idx ==> #[trigger] gss0[i] == gss[i]);
            lemma_doc_body_same(registry@, gss0, gss, idx as int);
            assert(doc_body(registry@, gss, idx as int + 1) == doc_body(registry@, gss, idx as int)
                + entry_str(e, gs));
            assert(writer@ =~= w1 + groups_render(e.name, e.unit, gs));
            assert(entry_str(e, gs) == header_str(e) + groups_render(e.name, e.unit, gs));
            assert(writer@ =~= orig + doc_body(registry@, gss, idx as int + 1));
            assert(registry.entries@[idx as int].1.groups_ok(
                EncV { name: e.name, unit: e.unit, labels: None },
                gs,
            ));
        }
        idx += 1;
    }
    writer.append("# EOF\n");
    proof {
        assert(writer@ =~= orig + document_str(registry@, gss));
    }
}

/// `doc_body` reads only the first `n` group sequences, so extending the
/// sequence past `n` leaves it unchanged.
proof fn lemma_doc_body_same(entries: Seq<EntryV>, a: Seq<Seq<GroupV>>, b: Seq<Seq<GroupV>>, n: int)
    requires
        forall|i: int| 0 <= i < n ==> a[i] == b[i],
    ensures
        doc_body(entries, a, n) == doc_body(entries, b, n),
    decreases n,
{
    if n > 0 {
        lemma_doc_body_same(entries, a, b, n - 1);
    }
}

// ---------------------------------------------------------------------
// Laws of the exposition format
// ---------------------------------------------------------------------
/// An empty registry produces exactly the terminal marker and nothing
/// else, whatever group sequences are supplied.
pub proof fn lemma_empty_document(entries: Seq<EntryV>, gss: Seq<Seq<GroupV>>)
    requires
        entries.len() == 0,
    ensures
        document_str(entries, gss) == "# EOF\n"@,
{
    assert(document_str(entries, gss) =~= "# EOF\n"@);
}

/// The `# UNIT` header line appears exactly when a unit was registered.
pub proof fn lemma_unit_line_present(e: EntryV, u: UnitV)
    requires
        e.unit == Some(u),
    ensures
        unit_header_str(e) == "# UNIT "@ + name_unit_str(e.name, e.unit) + " "@ + unit_token(u)
            + "\n"@,
{
}

/// Without a registered unit there is no `# UNIT` header line.
pub proof fn lemma_unit_line_absent(e: EntryV)
    requires
        e.unit is None,
    ensures
        unit_header_str(e) == Seq::<char>::empty(),
{
}

/// Every entry's contribution to a document is one contiguous block:
/// its `# HELP` line, then its `# TYPE` line, then its `# UNIT` line when
/// a unit is registered, and only then its sample lines; blocks stand in
/// registration order.
pub proof fn lemma_document_layout(entries: Seq<EntryV>, gss: Seq<Seq<GroupV>>, i: int)
    requires
        0 <= i < entries.len(),
    ensures
        exists|pre: Seq<char>, post: Seq<char>|
            document_str(entries, gss) == pre + (help_line(entries[i]) + type_line(entries[i])
                + unit_header_str(entries[i]) + groups_render(
                entries[i].name,
                entries[i].unit,
                gss[i],
            )) + post,
{
    lemma_doc_body_contains(entries, gss, i, entries.len() as int);
    let (pre, post) = choose|pre: Seq<char>, post: Seq<char>|
        doc_body(entries, gss, entries.len() as int) == pre + entry_str(entries[i], gss[i]) + post;
    let block = help_line(entries[i]) + type_line(entries[i]) + unit_header_str(entries[i])
        + groups_render(entries[i].name, entries[i].unit, gss[i]);
    assert(entry_str(entries[i], gss[i]) =~= block);
    assert(document_str(entries, gss) =~= pre + block + (post + "# EOF\n"@));
}

/// Entries stand in the document in registration order: for `i < j`,
/// entry `i`'s block comes before entry `j`'s block.
pub proof fn lemma_document_order(entries: Seq<EntryV>, gss: Seq<Seq<GroupV>>, i: int, j: int)
    requires
        0 <= i < j < entries.len(),
    ensures
        exists|pre: Seq<char>, mid: Seq<char>, post: Seq<char>|
            document_str(entries, gss) == pre + entry_str(entries[i], gss[i]) + mid + entry_str(
                entries[j],
                gss[j],
            ) + post,
{
    lemma_doc_body_contains(entries, gss, i, j);
    let (pre, mid) = choose|pre: Seq<char>, mid: Seq<char>|
        doc_body(entries, gss, j) == pre + entry_str(entries[i], gss[i]) + mid;
    let tail = lemma_doc_body_extend(entries, gss, j + 1, entries.len() as int);
    let post = tail + "# EOF\n"@;
    assert(document_str(entries, gss) =~= pre + entry_str(entries[i], gss[i]) + mid + entry_str(
        entries[j],
        gss[j],
    ) + post);
}

/// The first `n` entries' text is a prefix of the first `m` entries'
/// text, for `n <= m`.
proof fn lemma_doc_body_extend(
    entries: Seq<EntryV>,
    gss: Seq<Seq<GroupV>>,
    n: int,
    m: int,
) -> (tail: Seq<char>)
    requires
        0 <= n <= m,
    ensures
        doc_body(entries, gss, m) == doc_body(entries, gss, n) + tail,
    decreases m - n,
{
    if n == m {
        assert(doc_body(entries, gss, m) =~= doc_body(entries, gss, n) + Seq::<char>::empty());
        Seq::<char>::empty()
    } else {
        let tail = lemma_doc_body_extend(entries, gss, n, m - 1);
        let tail2 = tail + entry_str(entries[m - 1], gss[m - 1]);
        assert(doc_body(entries, gss, m) == doc_body(entries, gss, m - 1) + entry_str(
            entries[m - 1],
            gss[m - 1],
        ));
        assert(doc_body(entries, gss, m) =~= doc_body(entries, gss, n) + tail2);
        tail2
    }
}

proof fn lemma_doc_body_contains(entries: Seq<EntryV>, gss: Seq<Seq<GroupV>>, i: int, n: int)
    requires
        0 <= i < n,
    ensures
        exists|pre: Seq<char>, post: Seq<char>|
            doc_body(entries, gss, n) == pre + entry_str(entries[i], gss[i]) + post,
    decreases n,
{
    if i == n - 1 {
        let pre = doc_body(entries, gss, n - 1);
        let post = Seq::<char>::empty();
        assert(doc_body(entries, gss, n) =~= pre + entry_str(entries[i], gss[i]) + post);
    } else {
        lemma_doc_body_contains(entries, gss, i, n - 1);
        let (pre, post) = choose|pre: Seq<char>, post: Seq<char>|
            doc_body(entries, gss, n - 1) == pre + entry_str(entries[i], gss[i]) + post;
        let post2 = post + entry_str(entries[n - 1], gss[n - 1]);
        assert(doc_body(entries, gss, n) =~= pre + entry_str(entries[i], gss[i]) + post2);
    }
}

/// Every counter sample line starts with the metric name (and unit
/// suffix) followed by `_total`, and what follows is the label block or
/// the value.
pub proof fn lemma_counter_line_suffix(name: Seq<char>, unit: Option<UnitV>, g: GroupV)
    requires
        g.data is Counter,
    ensures
        exists|rest: Seq<char>|
            {
                &&& group_render(name, unit, g) == name_unit_str(name, unit) + "_total"@ + rest
                &&& rest.len() > 0
                &&& (rest[0] == ' ' || rest[0] == '{')
            },
{
    reveal_strlit("_");
    reveal_strlit("total");
    reveal_strlit("_total");
    reveal_strlit("{");
    reveal_strlit(" ");
    let value = dec_str(g.data->Counter_value as int);
    let rest = open_part(g.labels) + bucket_part(g.labels is Some, None) + " "@ + value + "\n"@;
    assert(suffix_part(Some("total"@)) =~= "_total"@);
    assert(group_render(name, unit, g) =~= name_unit_str(name, unit) + "_total"@ + rest);
    if g.labels is Some {
        assert(rest[0] == '{');
    } else {
        assert(open_part(g.labels).len() == 0);
        assert(bucket_part(false, None).len() == 0);
        assert(rest[0] == ' ');
    }
}

/// A gauge sample line is the metric name (and unit suffix) with no
/// further suffix: the label block or the value follows at once.
pub proof fn lemma_gauge_line_no_suffix(name: Seq<char>, unit: Option<UnitV>, g: GroupV)
    requires
        g.data is Gauge,
    ensures
        exists|rest: Seq<char>|
            {
                &&& group_render(name, unit, g) == name_unit_str(name, unit) + rest
                &&& rest.len() > 0
                &&& (rest[0] == ' ' || rest[0] == '{')
            },
{
    reveal_strlit("{");
    reveal_strlit(" ");
    let value = dec_str(g.data->Gauge_value as int);
    let rest = open_part(g.labels) + bucket_part(g.labels is Some, None) + " "@ + value + "\n"@;
    assert(suffix_part(None).len() == 0);
    assert(group_render(name, unit, g) =~= name_unit_str(name, unit) + rest);
    if g.labels is Some {
        assert(rest[0] == '{');
    } else {
        assert(open_part(g.labels).len() == 0);
        assert(bucket_part(false, None).len() == 0);
        assert(rest[0] == ' ');
    }
}

/// The concatenation of a sequence of lines.
pub open spec fn concat_lines(lines: Seq<Seq<char>>) -> Seq<char>
    decreases lines.len(),
{
    if lines.len() == 0 {
        Seq::empty()
    } else {
        concat_lines(lines.drop_last()) + lines.last()
    }
}

/// A histogram group with N stored buckets is exactly one `_sum` line,
/// then one `_count` line, then exactly N `_bucket` lines in stored
/// order, the line for bucket `j` carrying `le="<bound j>"`; in
/// particular, when the sentinel bound is stored last, the last bucket
/// line's `le` value is the literal `+Inf`.
pub proof fn lemma_histogram_group_shape(
    name: Seq<char>,
    unit: Option<UnitV>,
    labels: Option<Seq<char>>,
    sum: Seq<char>,
    count: u64,
    buckets: Seq<(BoundV, u64)>,
)
    ensures
        exists|lines: Seq<Seq<char>>|
            {
                &&& lines.len() == buckets.len()
                &&& group_render(
                    name,
                    unit,
                    GroupV { labels, data: GroupData::Histogram { sum, count, buckets } },
                ) == sample_line(name, unit, Some("sum"@), labels, None, sum) + sample_line(
                    name,
                    unit,
                    Some("count"@),
                    labels,
                    None,
                    dec_str(count as int),
                ) + concat_lines(lines)
                &&& forall|j: int|
                    0 <= j < lines.len() ==> lines[j] == sample_line(
                        name,
                        unit,
                        Some("bucket"@),
                        labels,
                        Some(buckets[j].0),
                        dec_str(buckets[j].1 as int),
                    )
            },
{
    let lines = Seq::new(
        buckets.len(),
        |j: int|
            sample_line(
                name,
                unit,
                Some("bucket"@),
                labels,
                Some(buckets[j].0),
                dec_str(buckets[j].1 as int),
            ),
    );
    lemma_bucket_lines_concat(name, unit, labels, buckets, lines);
}

proof fn lemma_bucket_lines_concat(
    name: Seq<char>,
    unit: Option<UnitV>,
    labels: Option<Seq<char>>,
    buckets: Seq<(BoundV, u64)>,
    lines: Seq<Seq<char>>,
)
    requires
        lines =~= Seq::new(
            buckets.len(),
            |j: int|
                sample_line(
                    name,
                    unit,
                    Some("bucket"@),
                    labels,
                    Some(buckets[j].0),
                    dec_str(buckets[j].1 as int),
                ),
        ),
    ensures
        bucket_lines(name, unit, labels, buckets) == concat_lines(lines),
    decreases buckets.len(),
{
    if buckets.len() > 0 {
        let prev = Seq::new(
            buckets.drop_last().len(),
            |j: int|
                sample_line(
                    name,
                    unit,
                    Some("bucket"@),
                    labels,
                    Some(buckets.drop_last()[j].0),
                    dec_str(buckets.drop_last()[j].1 as int),
                ),
        );
        assert(lines.drop_last() =~= prev);
        lemma_bucket_lines_concat(name, unit, labels, buckets.drop_last(), prev);
        assert(lines.last() == sample_line(
            name,
            unit,
            Some("bucket"@),
            labels,
            Some(buckets.last().0),
            dec_str(buckets.last().1 as int),
        ));
    }
}

} // verus!

