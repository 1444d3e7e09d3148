//! Metric definitions: what each metric is called, how it is grouped and
//! displayed, and the whole-unit thresholds at which it warns and is critical.

use vstd::prelude::*;

use crate::text::copy_string;

verus! {

/// The description of one metric.
#[derive(Debug, Clone)]
pub struct MetricDefinition {
    pub key: String,
    pub label: String,
    pub short: String,
    pub group: String,
    pub unit: String,
    pub description: String,
    pub warn: Option<u32>,
    pub critical: Option<u32>,
}

/// A metric definition as text.
pub struct MetricText {
    pub key: Seq<char>,
    pub label: Seq<char>,
    pub short: Seq<char>,
    pub group: Seq<char>,
    pub unit: Seq<char>,
    pub description: Seq<char>,
    pub warn: Option<u32>,
    pub critical: Option<u32>,
}

impl View for MetricDefinition {
    type V = MetricText;

    open spec fn view(&self) -> MetricText {
        MetricText {
            key: self.key@,
            label: self.label@,
            short: self.short@,
            group: self.group@,
            unit: self.unit@,
            description: self.description@,
            warn: self.warn,
            critical: self.critical,
        }
    }
}

pub open spec fn metric_text(
    key: Seq<char>,
    label: Seq<char>,
    short: Seq<char>,
    group: Seq<char>,
    unit: Seq<char>,
    description: Seq<char>,
    warn: Option<u32>,
    critical: Option<u32>,
) -> MetricText {
    MetricText { key, label, short, group, unit, description, warn, critical }
}

pub open spec fn definitions_view(v: Seq<MetricDefinition>) -> Seq<MetricText> {
    v.map_values(|d: MetricDefinition| d@)
}

impl MetricDefinition {
    pub fn new(
        key: &str,
        label: &str,
        short: &str,
        group: &str,
        unit: &str,
        description: &str,
        warn: Option<u32>,
        critical: Option<u32>,
    ) -> (r: MetricDefinition)
        ensures
            r@ == metric_text(key@, label@, short@, group@, unit@, description@, warn, critical),
    {
        MetricDefinition {
            key: copy_string(key),
            label: copy_string(label),
            short: copy_string(short),
            group: copy_string(group),
            unit: copy_string(unit),
            description: copy_string(description),
            warn,
            critical,
        }
    }
}

/// Appends `d` to `out`, keeping the view in step.
pub fn push_definition(out: &mut Vec<MetricDefinition>, d: MetricDefinition)
    ensures
        definitions_view(final(out)@) == definitions_view(old(out)@).push(d@),
{
    out.push(d);
    assert(definitions_view(out@) =~= definitions_view(old(out)@).push(d@));
}

} // verus!
