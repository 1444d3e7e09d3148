//! Board thermal sensors: the Modalix RTSN channels and the board hwmon
//! chips, how their sysfs files are found, and how readings are parsed.

use vstd::prelude::*;

use crate::model::{definitions_view, metric_text, push_definition, MetricDefinition, MetricText};
use crate::text::{
    concat2, concat3, decimal_string, decimal_text, parse_i64, parsed_i64, to_chars, trim, trim_span,
};

verus! {

#[verifier::external_type_specification]
#[verifier::external_body]
pub struct ExAnyhowError(anyhow::Error);

/// The hwmon `name` of the Modalix on-die thermal sensor driver.
pub const MODALIX_HWMON_NAME: &'static str = "simaai_modalix_thermal_sensor";

/// Number of RTSN channels the driver exposes.
pub const RTSN_CHANNELS: usize = 14;

pub open spec fn rtsn_group_of(idx: nat) -> Seq<char> {
    let i = idx % 7;
    if i <= 3 {
        "MLA"@
    } else if i == 4 {
        "APU"@
    } else if i == 5 {
        "CVU"@
    } else {
        "TOP"@
    }
}

/// The block an RTSN channel sits in (channels 7..13 repeat 0..6 as trip
/// channels).
pub fn rtsn_group(idx: usize) -> (r: &'static str)
    ensures
        r@ == rtsn_group_of(idx as nat),
{
    let i = idx % 7;
    if i <= 3 {
        "MLA"
    } else if i == 4 {
        "APU"
    } else if i == 5 {
        "CVU"
    } else {
        "TOP"
    }
}

pub open spec fn rtsn_site_of(idx: nat) -> Seq<char> {
    let i = idx % 7;
    if i == 0 {
        "MLA Q0"@
    } else if i == 1 {
        "MLA Q1"@
    } else if i == 2 {
        "MLA Q2"@
    } else if i == 3 {
        "MLA Q3"@
    } else if i == 4 {
        "APU"@
    } else if i == 5 {
        "CVU"@
    } else {
        "TOP (near PCIE/ETH area)"@
    }
}

/// Where on the die an RTSN channel measures.
pub fn rtsn_site(idx: usize) -> (r: &'static str)
    ensures
        r@ == rtsn_site_of(idx as nat),
{
    let i = idx % 7;
    if i == 0 {
        "MLA Q0"
    } else if i == 1 {
        "MLA Q1"
    } else if i == 2 {
        "MLA Q2"
    } else if i == 3 {
        "MLA Q3"
    } else if i == 4 {
        "APU"
    } else if i == 5 {
        "CVU"
    } else {
        "TOP (near PCIE/ETH area)"
    }
}

/// Channels 0..6 feed the DTS hub's alert inputs, 7..13 its trip inputs.
pub fn rtsn_role(idx: usize) -> (r: &'static str)
    ensures
        r@ == if idx < 7 { "Alert"@ } else { "Trip"@ },
{
    if idx < 7 {
        "Alert"
    } else {
        "Trip"
    }
}

/// The metric key of an RTSN channel: `rtsn_<idx>`.
pub fn rtsn_key(idx: usize) -> (r: String)
    ensures
        r@ == "rtsn_"@ + decimal_text(idx as nat),
{
    let n = decimal_string(idx as u64);
    proof {
        reveal_strlit("");
        assert("rtsn_"@ + n@ + ""@ =~= "rtsn_"@ + n@);
    }
    concat3("rtsn_", n.as_str(), "")
}

/// The sysfs input file of an RTSN channel: hwmon channels count from one,
/// so channel `idx` is `temp<idx + 1>_input`.
pub fn rtsn_input(idx: usize) -> (r: String)
    requires
        idx < usize::MAX,
    ensures
        r@ == "temp"@ + decimal_text(idx as nat + 1) + "_input"@,
{
    let next: usize = idx + 1;
    let n = decimal_string(next as u64);
    concat3("temp", n.as_str(), "_input")
}

/// A board temperature read through a hwmon chip other than the Modalix driver.
#[derive(Debug, Clone, Copy)]
pub struct HwmonSensor {
    pub key: &'static str,
    pub label: &'static str,
    pub short: &'static str,
    pub group: &'static str,
    pub chip: &'static str,
    pub input: &'static str,
    pub description: &'static str,
}

/// Key, label, short label, group, hwmon chip name, input file and
/// description of a board sensor.
pub open spec fn sensor_view(s: HwmonSensor) -> (Seq<char>, Seq<char>, Seq<char>, Seq<char>, Seq<char>, Seq<char>, Seq<char>) {
    (s.key@, s.label@, s.short@, s.group@, s.chip@, s.input@, s.description@)
}

pub open spec fn board_sensor_table() -> Seq<(Seq<char>, Seq<char>, Seq<char>, Seq<char>, Seq<char>, Seq<char>, Seq<char>)> {
    seq![
        ("lm96163_temp1"@, "LM96163 temp1"@, "LM96-1"@, "Board"@, "lm96163"@, "temp1_input"@, "SOM top-side board temperature from the LM96063 hardware-monitoring IC's internal sensor."@),
        ("lm96163_temp2"@, "LM96163 temp2"@, "LM96-2"@, "Board"@, "lm96163"@, "temp2_input"@, "SOM bottom-side board temperature from a diode on the bottom side of the SOM, read through the LM96063 IC."@),
        ("eth_mdio_temp1"@, "ETH/MDIO temp1"@, "ETH-1"@, "Board"@, "a800000ethernetmdio000"@, "temp1_input"@, "Ethernet/MDIO temperature reported through the ETH hwmon device."@),
    ]
}

pub fn board_sensors() -> (r: Vec<HwmonSensor>)
    ensures
        r@.map_values(|s: HwmonSensor| sensor_view(s)) == board_sensor_table(),
{
    let mut out: Vec<HwmonSensor> = Vec::new();
    out.push(HwmonSensor {
        key: "lm96163_temp1",
        label: "LM96163 temp1",
        short: "LM96-1",
        group: "Board",
        chip: "lm96163",
        input: "temp1_input",
        description: "SOM top-side board temperature from the LM96063 hardware-monitoring IC's internal sensor.",
    });
    out.push(HwmonSensor {
        key: "lm96163_temp2",
        label: "LM96163 temp2",
        short: "LM96-2",
        group: "Board",
        chip: "lm96163",
        input: "temp2_input",
        description: "SOM bottom-side board temperature from a diode on the bottom side of the SOM, read through the LM96063 IC.",
    });
    out.push(HwmonSensor {
        key: "eth_mdio_temp1",
        label: "ETH/MDIO temp1",
        short: "ETH-1",
        group: "Board",
        chip: "a800000ethernetmdio000",
        input: "temp1_input",
        description: "Ethernet/MDIO temperature reported through the ETH hwmon device.",
    });
    assert(out@.map_values(|s: HwmonSensor| sensor_view(s)) =~= board_sensor_table());
    out
}

/// A hwmon directory belongs to `chip` when its `name` file, trimmed, is
/// exactly the chip name.
pub fn hwmon_name_matches(name_file: &str, chip: &str) -> (r: bool)
    ensures
        r == (trim(name_file@) == chip@),
{
    let chars = to_chars(name_file);
    let (a, b) = trim_span(chars.as_slice());
    let c = to_chars(chip);
    crate::text::chars_eq(&chars[a..b], c.as_slice())
}

/// A hwmon reading in millidegrees Celsius: the trimmed file as a signed
/// integer (anything else, such as "NaN" or "40000.5", is unreadable).
pub fn parse_millidegrees(raw: &str) -> (r: Option<i64>)
    ensures
        r == parsed_i64(trim(raw@)),
{
    let chars = to_chars(raw);
    let (a, b) = trim_span(chars.as_slice());
    parse_i64(&chars[a..b])
}

/// Where the hwmon devices are listed.
pub struct ThermalCollector {
    pub hwmon_root: String,
}

impl ThermalCollector {
    pub fn new() -> (r: Result<ThermalCollector, anyhow::Error>)
        ensures
            r matches Ok(c) && c.hwmon_root@ == "/sys/class/hwmon"@,
    {
        Ok(ThermalCollector { hwmon_root: String::from_str("/sys/class/hwmon") })
    }
}

pub open spec fn rtsn_role_of(idx: nat) -> Seq<char> {
    if idx < 7 {
        "Alert"@
    } else {
        "Trip"@
    }
}

/// The temperature metric of RTSN channel `idx`.
pub open spec fn rtsn_metric(idx: nat) -> MetricText {
    metric_text(
        "rtsn_"@ + decimal_text(idx),
        rtsn_group_of(idx) + " RTSN-"@ + decimal_text(idx),
        rtsn_group_of(idx) + "-"@ + decimal_text(idx),
        rtsn_group_of(idx),
        "C"@,
        "On-die RTSN at the "@ + rtsn_site_of(idx) + " site; feeds DTS Hub "@ + rtsn_role_of(idx)
            + " channel "@ + decimal_text(idx) + "."@,
        Some(70u32),
        Some(85u32),
    )
}

/// The temperature metric of a board sensor.
pub open spec fn sensor_metric(
    s: (Seq<char>, Seq<char>, Seq<char>, Seq<char>, Seq<char>, Seq<char>, Seq<char>),
) -> MetricText {
    metric_text(s.0, s.1, s.2, s.3, "C"@, s.6, Some(70u32), Some(85u32))
}

/// Every thermal metric: the RTSN channels in order, then the board sensors.
pub open spec fn thermal_metrics() -> Seq<MetricText> {
    Seq::new(RTSN_CHANNELS as nat, |i: int| rtsn_metric(i as nat)) + board_sensor_table().map_values(
        |s: (Seq<char>, Seq<char>, Seq<char>, Seq<char>, Seq<char>, Seq<char>, Seq<char>)|
            sensor_metric(s),
    )
}

fn rtsn_metric_definition(idx: usize) -> (r: MetricDefinition)
    ensures
        r@ == rtsn_metric(idx as nat),
{
    let n = decimal_string(idx as u64);
    let group = rtsn_group(idx);
    let key = concat2("rtsn_", n.as_str());
    let label = concat3(group, " RTSN-", n.as_str());
    let short = concat3(group, "-", n.as_str());
    let head = concat3("On-die RTSN at the ", rtsn_site(idx), " site; feeds DTS Hub ");
    let middle = concat3(head.as_str(), rtsn_role(idx), " channel ");
    let description = concat3(middle.as_str(), n.as_str(), ".");
    MetricDefinition::new(key.as_str(), label.as_str(), short.as_str(), group, "C", description.as_str(), Some(70), Some(85))
}

/// The definitions of every thermal metric.
pub fn thermal_metric_definitions() -> (r: Vec<MetricDefinition>)
    ensures
        definitions_view(r@) == thermal_metrics(),
{
    let mut out: Vec<MetricDefinition> = Vec::new();
    let mut idx: usize = 0;
    while idx < RTSN_CHANNELS
        invariant
            idx <= RTSN_CHANNELS,
            definitions_view(out@) == Seq::new(idx as nat, |i: int| rtsn_metric(i as nat)),
        decreases RTSN_CHANNELS - idx,
    {
        push_definition(&mut out, rtsn_metric_definition(idx));
        assert(Seq::new((idx + 1) as nat, |i: int| rtsn_metric(i as nat)) =~= Seq::new(
            idx as nat,
            |i: int| rtsn_metric(i as nat),
        ).push(rtsn_metric(idx as nat)));
        idx = idx + 1;
    }
    let ghost rtsn = definitions_view(out@);
    let sensors = board_sensors();
    let ghost table = board_sensor_table();
    let mut k: usize = 0;
    while k < sensors.len()
        invariant
            sensors@.map_values(|s: HwmonSensor| sensor_view(s)) == table,
            table == board_sensor_table(),
            k <= sensors@.len(),
            definitions_view(out@) == rtsn + table.take(k as int).map_values(
                |s: (Seq<char>, Seq<char>, Seq<char>, Seq<char>, Seq<char>, Seq<char>, Seq<char>)|
                    sensor_metric(s),
            ),
        decreases sensors@.len() - k,
    {
        let s = sensors[k];
        assert(sensor_view(s) == table[k as int]);
        push_definition(&mut out, MetricDefinition::new(s.key, s.label, s.short, s.group, "C", s.description, Some(70), Some(85)));
        assert(table.take(k + 1).map_values(
            |s: (Seq<char>, Seq<char>, Seq<char>, Seq<char>, Seq<char>, Seq<char>, Seq<char>)|
                sensor_metric(s),
        ) =~= table.take(k as int).map_values(
            |s: (Seq<char>, Seq<char>, Seq<char>, Seq<char>, Seq<char>, Seq<char>, Seq<char>)|
                sensor_metric(s),
        ).push(sensor_metric(table[k as int])));
        k = k + 1;
    }
    assert(table.take(sensors@.len() as int) =~= table);
    out
}

} // verus!
