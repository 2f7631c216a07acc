//! Metric registration bookkeeping: units, descriptors and the registry
//! that the text encoder walks.

use vstd::prelude::*;
use vstd::string::StringExecFns;
use crate::encoding::EncodeMetric;
use crate::metrics::MetricType;

verus! {

/// Physical unit of a metric. Rendered as a lowercase token and appended
/// to the metric name as a `_<unit>` suffix wherever the name appears.
pub enum Unit {
    Amperes,
    Bytes,
    Celsius,
    Grams,
    Joules,
    Meters,
    Ratios,
    Seconds,
    Volts,
    Other(String),
}

/// Mathematical model of a [`Unit`].
pub enum UnitV {
    Amperes,
    Bytes,
    Celsius,
    Grams,
    Joules,
    Meters,
    Ratios,
    Seconds,
    Volts,
    Other(Seq<char>),
}

impl View for Unit {
    type V = UnitV;

    open spec fn view(&self) -> UnitV {
        match self {
            Unit::Amperes => UnitV::Amperes,
            Unit::Bytes => UnitV::Bytes,
            Unit::Celsius => UnitV::Celsius,
            Unit::Grams => UnitV::Grams,
            Unit::Joules => UnitV::Joules,
            Unit::Meters => UnitV::Meters,
            Unit::Ratios => UnitV::Ratios,
            Unit::Seconds => UnitV::Seconds,
            Unit::Volts => UnitV::Volts,
            Unit::Other(s) => UnitV::Other(s@),
        }
    }
}

impl Clone for Unit {
    fn clone(&self) -> (r: Self)
        ensures
            r@ == self@,
    {
        match self {
            Unit::Amperes => Unit::Amperes,
            Unit::Bytes => Unit::Bytes,
            Unit::Celsius => Unit::Celsius,
            Unit::Grams => Unit::Grams,
            Unit::Joules => Unit::Joules,
            Unit::Meters => Unit::Meters,
            Unit::Ratios => Unit::Ratios,
            Unit::Seconds => Unit::Seconds,
            Unit::Volts => Unit::Volts,
            Unit::Other(s) => Unit::Other(s.clone()),
        }
    }
}

/// The token a unit renders as on `# UNIT` lines and in name suffixes.
pub open spec fn unit_token(u: UnitV) -> Seq<char> {
    match u {
        UnitV::Amperes => "amperes"@,
        UnitV::Bytes => "bytes"@,
        UnitV::Celsius => "celsius"@,
        UnitV::Grams => "grams"@,
        UnitV::Joules => "joules"@,
        UnitV::Meters => "meters"@,
        UnitV::Ratios => "ratios"@,
        UnitV::Seconds => "seconds"@,
        UnitV::Volts => "volts"@,
        UnitV::Other(s) => s,
    }
}

/// What the registry records about one metric: name, help text and
/// optional unit.
pub struct Descriptor {
    pub name: String,
    pub help: String,
    pub unit: Option<Unit>,
}

/// Mathematical model of one registry entry, including the type tag of
/// the registered metric.
pub struct EntryV {
    pub name: Seq<char>,
    pub help: Seq<char>,
    pub unit: Option<UnitV>,
    pub mtype: MetricType,
}

/// An ordered collection of registered metrics. Entries are kept in
/// registration order; the encoder walks them in that order.
pub struct Registry<M> {
    pub entries: Vec<(Descriptor, M)>,
}

impl<M: EncodeMetric> View for Registry<M> {
    type V = Seq<EntryV>;

    open spec fn view(&self) -> Seq<EntryV> {
        self.entries@.map(
            |i: int, e: (Descriptor, M)|
                EntryV {
                    name: e.0.name@,
                    help: e.0.help@,
                    unit: match e.0.unit {
                        Some(u) => Some(u@),
                        None => None,
                    },
                    mtype: e.1.metric_type_spec(),
                },
        )
    }
}

impl<M: EncodeMetric> Default for Registry<M> {
    fn default() -> (r: Self)
        ensures
            r@ =~= Seq::<EntryV>::empty(),
    {
        Registry { entries: Vec::new() }
    }
}

impl<M: EncodeMetric> Registry<M> {
    /// Appends a metric under the given name and help text.
    /// A full stop is appended to the help text.
    pub fn register(&mut self, name: &str, help: &str, metric: M)
        ensures
            final(self)@ == old(self)@.push(
                EntryV {
                    name: name@,
                    help: help@ + "."@,
                    unit: None,
                    mtype: metric.metric_type_spec(),
                },
            ),
    {
        let mut h = String::from_str(help);
        h.append(".");
        self.entries.push((Descriptor { name: String::from_str(name), help: h, unit: None }, metric));
        proof {
            assert(self@ =~= old(self)@.push(
                EntryV {
                    name: name@,
                    help: help@ + "."@,
                    unit: None,
                    mtype: metric.metric_type_spec(),
                },
            ));
        }
    }

    /// Appends a metric that carries a unit.
    /// A full stop is appended to the help text.
    pub fn register_with_unit(&mut self, name: &str, help: &str, unit: Unit, metric: M)
        ensures
            final(self)@ == old(self)@.push(
                EntryV {
                    name: name@,
                    help: help@ + "."@,
                    unit: Some(unit@),
                    mtype: metric.metric_type_spec(),
                },
            ),
    {
        let mut h = String::from_str(help);
        h.append(".");
        self.entries.push(
            (Descriptor { name: String::from_str(name), help: h, unit: Some(unit) }, metric),
        );
        proof {
            assert(self@ =~= old(self)@.push(
                EntryV {
                    name: name@,
                    help: help@ + "."@,
                    unit: Some(unit@),
                    mtype: metric.metric_type_spec(),
                },
            ));
        }
    }

    /// Number of registered entries.
    pub fn len(&self) -> (n: usize)
        ensures
            n == self@.len(),
    {
        self.entries.len()
    }
}

} // verus!
