//! Modalix PMBus power telemetry: board profiles, their rail tables, the
//! per-rail register protocol, and the session bookkeeping of sampling passes.

use vstd::prelude::*;

use crate::model::{definitions_view, metric_text, push_definition, MetricDefinition, MetricText};
use crate::text::{ascii_lower, contains_chars, contains_run, joined, push_char, to_ascii_lower, to_chars};

verus! {

pub const PAGE_REGISTER: u8 = 0x00;

pub const POUT_REGISTER: u8 = 0x96;

/// The board variant whose rail set is sampled.
#[derive(Debug, Clone, Copy, PartialEq, Eq, Structural)]
pub enum PowerProfile {
    ModalixSom,
    ModalixDvt,
}

pub open spec fn profile_name(profile: PowerProfile) -> Seq<char> {
    match profile {
        PowerProfile::ModalixSom => "modalix_som"@,
        PowerProfile::ModalixDvt => "modalix_dvt"@,
    }
}

impl PowerProfile {
    pub fn name(self) -> (r: &'static str)
        ensures
            r@ == profile_name(self),
    {
        match self {
            PowerProfile::ModalixSom => "modalix_som",
            PowerProfile::ModalixDvt => "modalix_dvt",
        }
    }
}

/// One PMBus rail: where its `POUT` register lives and the power of two that
/// scales its raw reading to watts.
#[derive(Debug, Clone)]
pub struct PowerRailConfig {
    pub key: &'static str,
    pub name: &'static str,
    pub i2c_bus: i32,
    pub i2c_addr: u8,
    pub page: u8,
    pub pout_exponent: i32,
}

/// The plain values of a rail configuration.
pub struct RailSpec {
    pub key: Seq<char>,
    pub name: Seq<char>,
    pub i2c_bus: int,
    pub i2c_addr: int,
    pub page: int,
    pub pout_exponent: int,
}

impl View for PowerRailConfig {
    type V = RailSpec;

    open spec fn view(&self) -> RailSpec {
        RailSpec {
            key: self.key@,
            name: self.name@,
            i2c_bus: self.i2c_bus as int,
            i2c_addr: self.i2c_addr as int,
            page: self.page as int,
            pout_exponent: self.pout_exponent as int,
        }
    }
}

pub open spec fn rail(
    key: Seq<char>,
    name: Seq<char>,
    i2c_bus: int,
    i2c_addr: int,
    page: int,
    pout_exponent: int,
) -> RailSpec {
    RailSpec { key, name, i2c_bus, i2c_addr, page, pout_exponent }
}

/// The rails each profile samples.
pub open spec fn rail_table(profile: PowerProfile) -> Seq<RailSpec> {
    match profile {
        PowerProfile::ModalixSom => seq![
            rail("power_rail_soc_ddr_vdd_watts"@, "SoC and DDR VDD"@, 3, 0x4f, 0x00, -2),
            rail("power_rail_hdmi_watts"@, "HDMI 1.2V"@, 3, 0x4f, 0x01, -5),
            rail("power_rail_soc_ddr_vddq_watts"@, "SoC and DDR VDDQ"@, 3, 0x4f, 0x02, -5),
            rail("power_rail_soc_ddr_vdd2h_watts"@, "SoC and DDR VDD2H"@, 3, 0x4f, 0x03, -5),
            rail("power_rail_mla_watts"@, "MLA 0.68V"@, 3, 0x4d, 0x00, -2),
            rail("power_rail_pcie_eth_watts"@, "PCIe and ETH VP"@, 3, 0x4d, 0x01, -5),
            rail("power_rail_platform_1v8_watts"@, "SOM Platform 1.8V"@, 3, 0x4d, 0x02, -5),
            rail("power_rail_platform_3v3_watts"@, "SOM Platform 3.3V"@, 3, 0x4d, 0x03, -5),
        ],
        PowerProfile::ModalixDvt => seq![
            rail("power_rail_dvt_pmic_4d_page0_watts"@, "DVT PMIC 0x4d page0"@, 4, 0x4d, 0x00, -2),
        ],
    }
}

/// The Modalix SOM samples eight rails. `SoC and DDR VDD` and `MLA 0.68V`
/// report in 0.25 W steps (a `POUT` exponent of -2); every other SOM rail
/// reports in 0.03125 W steps (an exponent of -5).
pub proof fn lemma_som_rail_steps()
    ensures
        rail_table(PowerProfile::ModalixSom).len() == 8,
        forall|i: int|
            0 <= i < rail_table(PowerProfile::ModalixSom).len() ==> {
                let r = #[trigger] rail_table(PowerProfile::ModalixSom)[i];
                if r.name == "SoC and DDR VDD"@ || r.name == "MLA 0.68V"@ {
                    r.pout_exponent == -2
                } else {
                    r.pout_exponent == -5
                }
            },
{
    reveal_strlit("SoC and DDR VDD");
    reveal_strlit("HDMI 1.2V");
    reveal_strlit("SoC and DDR VDDQ");
    reveal_strlit("SoC and DDR VDD2H");
    reveal_strlit("MLA 0.68V");
    reveal_strlit("PCIe and ETH VP");
    reveal_strlit("SOM Platform 1.8V");
    reveal_strlit("SOM Platform 3.3V");
    let t = rail_table(PowerProfile::ModalixSom);
    assert("HDMI 1.2V"@ != "SoC and DDR VDD"@ && "HDMI 1.2V"@ != "MLA 0.68V"@) by {
        assert("HDMI 1.2V"@[0] != "SoC and DDR VDD"@[0]);
        assert("HDMI 1.2V"@[0] != "MLA 0.68V"@[0]);
    }
    assert("SoC and DDR VDDQ"@ != "SoC and DDR VDD"@ && "SoC and DDR VDDQ"@ != "MLA 0.68V"@) by {
        assert("SoC and DDR VDDQ"@.len() != "SoC and DDR VDD"@.len());
        assert("SoC and DDR VDDQ"@[0] != "MLA 0.68V"@[0]);
    }
    assert("SoC and DDR VDD2H"@ != "SoC and DDR VDD"@ && "SoC and DDR VDD2H"@ != "MLA 0.68V"@) by {
        assert("SoC and DDR VDD2H"@.len() != "SoC and DDR VDD"@.len());
        assert("SoC and DDR VDD2H"@[0] != "MLA 0.68V"@[0]);
    }
    assert("PCIe and ETH VP"@ != "SoC and DDR VDD"@ && "PCIe and ETH VP"@ != "MLA 0.68V"@) by {
        assert("PCIe and ETH VP"@[0] != "SoC and DDR VDD"@[0]);
        assert("PCIe and ETH VP"@[0] != "MLA 0.68V"@[0]);
    }
    assert("SOM Platform 1.8V"@ != "SoC and DDR VDD"@ && "SOM Platform 1.8V"@ != "MLA 0.68V"@) by {
        assert("SOM Platform 1.8V"@[1] != "SoC and DDR VDD"@[1]);
        assert("SOM Platform 1.8V"@[0] != "MLA 0.68V"@[0]);
    }
    assert("SOM Platform 3.3V"@ != "SoC and DDR VDD"@ && "SOM Platform 3.3V"@ != "MLA 0.68V"@) by {
        assert("SOM Platform 3.3V"@[1] != "SoC and DDR VDD"@[1]);
        assert("SOM Platform 3.3V"@[0] != "MLA 0.68V"@[0]);
    }
    assert forall|i: int| 0 <= i < t.len() implies {
        let r = #[trigger] t[i];
        if r.name == "SoC and DDR VDD"@ || r.name == "MLA 0.68V"@ {
            r.pout_exponent == -2
        } else {
            r.pout_exponent == -5
        }
    } by {
        assert(0 <= i < 8);
    }
}

pub open spec fn rails_view(rails: Seq<PowerRailConfig>) -> Seq<RailSpec> {
    rails.map_values(|r: PowerRailConfig| r@)
}

fn rail_config(
    key: &'static str,
    name: &'static str,
    i2c_bus: i32,
    i2c_addr: u8,
    page: u8,
    pout_exponent: i32,
) -> (r: PowerRailConfig)
    ensures
        r@ == rail(key@, name@, i2c_bus as int, i2c_addr as int, page as int, pout_exponent as int),
{
    PowerRailConfig { key, name, i2c_bus, i2c_addr, page, pout_exponent }
}

pub fn rails_for_profile(profile: PowerProfile) -> (r: Vec<PowerRailConfig>)
    ensures
        rails_view(r@) == rail_table(profile),
{
    let mut rails: Vec<PowerRailConfig> = Vec::new();
    match profile {
        PowerProfile::ModalixSom => {
            rails.push(rail_config("power_rail_soc_ddr_vdd_watts", "SoC and DDR VDD", 3, 0x4f, 0x00, -2));
            rails.push(rail_config("power_rail_hdmi_watts", "HDMI 1.2V", 3, 0x4f, 0x01, -5));
            rails.push(rail_config("power_rail_soc_ddr_vddq_watts", "SoC and DDR VDDQ", 3, 0x4f, 0x02, -5));
            rails.push(rail_config("power_rail_soc_ddr_vdd2h_watts", "SoC and DDR VDD2H", 3, 0x4f, 0x03, -5));
            rails.push(rail_config("power_rail_mla_watts", "MLA 0.68V", 3, 0x4d, 0x00, -2));
            rails.push(rail_config("power_rail_pcie_eth_watts", "PCIe and ETH VP", 3, 0x4d, 0x01, -5));
            rails.push(rail_config("power_rail_platform_1v8_watts", "SOM Platform 1.8V", 3, 0x4d, 0x02, -5));
            rails.push(rail_config("power_rail_platform_3v3_watts", "SOM Platform 3.3V", 3, 0x4d, 0x03, -5));
        },
        PowerProfile::ModalixDvt => {
            rails.push(rail_config("power_rail_dvt_pmic_4d_page0_watts", "DVT PMIC 0x4d page0", 4, 0x4d, 0x00, -2));
        },
    }
    assert(rails_view(rails@) =~= rail_table(profile));
    rails
}

/// A board model names the DVT variant when it mentions "modalix dvt" in any
/// letter case; every other model is treated as the SOM.
pub open spec fn profile_for_model(model: Seq<char>) -> PowerProfile {
    if contains_run(ascii_lower(model), "modalix dvt"@) {
        PowerProfile::ModalixDvt
    } else {
        PowerProfile::ModalixSom
    }
}

pub fn detect_power_profile_from_model(model: &str) -> (r: PowerProfile)
    ensures
        r == profile_for_model(model@),
{
    let lower = to_ascii_lower(to_chars(model).as_slice());
    let needle = to_chars("modalix dvt");
    if contains_chars(lower.as_slice(), needle.as_slice()) {
        PowerProfile::ModalixDvt
    } else {
        PowerProfile::ModalixSom
    }
}

/// What `String::from_utf8_lossy` decodes a byte string to: UTF-8 with every
/// invalid sequence replaced by U+FFFD.
pub uninterp spec fn utf8_lossy(bytes: Seq<u8>) -> Seq<char>;

/// Decodes bytes with `String::from_utf8_lossy`; the result is named by
/// `utf8_lossy` and depends on the bytes alone.
#[verifier::external_body]
fn decode_lossy(bytes: &[u8]) -> (r: String)
    ensures
        r@ == utf8_lossy(bytes@),
{
    String::from_utf8_lossy(bytes).into_owned()
}

/// The text without NUL characters (device-tree strings are NUL-terminated).
pub open spec fn without_nul(s: Seq<char>) -> Seq<char>
    decreases s.len(),
{
    if s.len() == 0 {
        s
    } else if s.last() == '\0' {
        without_nul(s.drop_last())
    } else {
        without_nul(s.drop_last()).push(s.last())
    }
}

fn strip_nul(s: &str) -> (r: String)
    ensures
        r@ == without_nul(s@),
{
    let chars = to_chars(s);
    let mut out = String::new();
    let mut i: usize = 0;
    while i < chars.len()
        invariant
            i <= chars@.len(),
            chars@ == s@,
            out@ == without_nul(chars@.take(i as int)),
        decreases chars@.len() - i,
    {
        assert(chars@.take(i + 1).drop_last() =~= chars@.take(i as int));
        if chars[i] != '\0' {
            push_char(&mut out, chars[i]);
        }
        i = i + 1;
    }
    assert(chars@.take(chars@.len() as int) =~= chars@);
    out
}

/// The profile named by the device-tree model file's contents; an unreadable
/// file (`None`) counts as an empty model.
pub open spec fn profile_for_device_tree(model: Option<Seq<u8>>) -> PowerProfile {
    match model {
        Some(bytes) => profile_for_model(without_nul(utf8_lossy(bytes))),
        None => profile_for_model(Seq::<char>::empty()),
    }
}

/// Detects the board profile from the bytes of `/proc/device-tree/model`.
pub fn detect_power_profile(device_tree_model: Option<&[u8]>) -> (r: PowerProfile)
    ensures
        r == profile_for_device_tree(
            match device_tree_model {
                Some(b) => Some(b@),
                None => None,
            },
        ),
{
    match device_tree_model {
        Some(bytes) => {
            let text = decode_lossy(bytes);
            let model = strip_nul(text.as_str());
            let r = detect_power_profile_from_model(model.as_str());
            assert(r == profile_for_model(without_nul(utf8_lossy(bytes@))));
            r
        },
        None => {
            proof {
                reveal_strlit("");
                assert(""@ =~= Seq::<char>::empty());
            }
            let r = detect_power_profile_from_model("");
            assert(r == profile_for_model(Seq::<char>::empty()));
            r
        },
    }
}

/// A span of time with nanosecond resolution (the library's stand-in for
/// `std::time::Duration`, which it cannot look into).
#[derive(Debug, Clone, Copy, PartialEq, Eq, Structural)]
pub struct Interval {
    nanos: u128,
}

impl View for Interval {
    type V = nat;

    closed spec fn view(&self) -> nat {
        self.nanos as nat
    }
}

impl Interval {
    pub fn from_nanos(nanos: u128) -> (r: Interval)
        ensures
            r@ == nanos,
    {
        Interval { nanos }
    }

    pub fn from_millis(millis: u64) -> (r: Interval)
        ensures
            r@ == millis * 1_000_000,
    {
        Interval { nanos: millis as u128 * 1_000_000 }
    }

    pub fn as_nanos(&self) -> (r: u128)
        ensures
            r == self@,
    {
        self.nanos
    }

    /// Whole milliseconds (`Duration::as_millis`).
    pub fn as_millis(&self) -> (r: u128)
        ensures
            r == self@ / 1_000_000,
    {
        self.nanos / 1_000_000
    }

    /// The longer of the two spans (`Ord::max`).
    pub fn max(self, other: Interval) -> (r: Interval)
        ensures
            r@ == if self@ >= other@ { self@ } else { other@ },
    {
        if self.nanos >= other.nanos {
            self
        } else {
            other
        }
    }
}

/// The rails of a profile together with the PMBus sampling interval.
#[derive(Debug, Clone)]
pub struct PowerConfig {
    pub profile: PowerProfile,
    pub sample_interval: Interval,
    pub rails: Vec<PowerRailConfig>,
}

impl PowerConfig {
    /// The configuration for the detected board: its profile and rail table,
    /// sampled no faster than once per millisecond.
    pub fn auto(device_tree_model: Option<&[u8]>, sample_interval: Interval) -> (r: PowerConfig)
        ensures
            r.profile == profile_for_device_tree(
                match device_tree_model {
                    Some(b) => Some(b@),
                    None => None,
                },
            ),
            r.sample_interval@ == if sample_interval@ >= 1_000_000 {
                sample_interval@
            } else {
                1_000_000
            },
            rails_view(r.rails@) == rail_table(r.profile),
    {
        let profile = detect_power_profile(device_tree_model);
        PowerConfig {
            profile,
            sample_interval: sample_interval.max(Interval::from_millis(1)),
            rails: rails_for_profile(profile),
        }
    }
}

/// Raw access to the PMBus devices behind the rails.
pub trait PowerI2cBackend: Send + Sync {
    fn set_page(&self, bus: i32, addr: u8, page: u8) -> Result<(), String>;

    fn read_register(&self, bus: i32, addr: u8, register: u8) -> Result<u8, String>;

    /// Selects the rail's page, then reads its `POUT` register. As provided
    /// here, the result is the page selection's error when that fails, and
    /// otherwise a result of reading `POUT` on the rail's bus and address.
    fn read_power(&self, rail: &PowerRailConfig) -> (r: Result<u8, String>)
        default_ensures
            exists|p: Result<(), String>|
                {
                    &&& #[trigger] call_ensures(
                        Self::set_page,
                        (self, rail.i2c_bus, rail.i2c_addr, rail.page),
                        p,
                    )
                    &&& match p {
                        Ok(_) => call_ensures(
                            Self::read_register,
                            (self, rail.i2c_bus, rail.i2c_addr, POUT_REGISTER),
                            r,
                        ),
                        Err(e) => r == Err::<u8, String>(e),
                    }
                },
    {
        match self.set_page(rail.i2c_bus, rail.i2c_addr, rail.page) {
            Ok(()) => self.read_register(rail.i2c_bus, rail.i2c_addr, POUT_REGISTER),
            Err(error) => Err(error),
        }
    }
}

/// One sampling pass: the raw `POUT` byte of every configured rail, in rail
/// order, or the error that stopped its read. Slot `i` holds what the
/// backend's `read_power` returned for rail `i`.
pub fn read_power_registers<B: PowerI2cBackend>(config: &PowerConfig, backend: &B) -> (r: Vec<
    Result<u8, String>,
>)
    ensures
        r@.len() == config.rails@.len(),
        forall|i: int|
            0 <= i < r@.len() ==> call_ensures(
                B::read_power,
                (backend, &config.rails@[i]),
                #[trigger] r@[i],
            ),
{
    let mut readings: Vec<Result<u8, String>> = Vec::new();
    let mut i: usize = 0;
    while i < config.rails.len()
        invariant
            i <= config.rails@.len(),
            readings@.len() == i,
            forall|j: int|
                0 <= j < i ==> call_ensures(
                    B::read_power,
                    (backend, &config.rails@[j]),
                    #[trigger] readings@[j],
                ),
        decreases config.rails@.len() - i,
    {
        let reading = backend.read_power(&config.rails[i]);
        readings.push(reading);
        i = i + 1;
    }
    readings
}

/// Success and failure counts of one rail.
#[derive(Debug, Clone, Copy, PartialEq, Eq, Structural, Default)]
pub struct RailTally {
    pub samples: u64,
    pub errors: u64,
}

/// `n + 1` in `u64`, wrapping as the release build does.
pub open spec fn bump(n: u64) -> u64 {
    if n == u64::MAX {
        0
    } else {
        (n + 1) as u64
    }
}

fn bump_u64(n: u64) -> (r: u64)
    ensures
        r == bump(n),
{
    if n == u64::MAX {
        0
    } else {
        n + 1
    }
}

/// A rail's tally after one reading.
pub open spec fn tally_reading(t: RailTally, reading: Result<u8, String>) -> RailTally {
    if reading is Ok {
        RailTally { samples: bump(t.samples), errors: t.errors }
    } else {
        RailTally { samples: t.samples, errors: bump(t.errors) }
    }
}

/// The rail tallies after a pass: rails and readings are paired in order,
/// and a rail without a reading keeps its tally.
pub open spec fn tally_rails(rails: Seq<RailTally>, readings: Seq<Result<u8, String>>) -> Seq<
    RailTally,
> {
    Seq::new(
        rails.len(),
        |i: int|
            if i < readings.len() {
                tally_reading(rails[i], readings[i])
            } else {
                rails[i]
            },
    )
}

/// The error messages of the paired readings that failed, in rail order.
pub open spec fn pass_errors(readings: Seq<Result<u8, String>>) -> Seq<Seq<char>>
    decreases readings.len(),
{
    if readings.len() == 0 {
        seq![]
    } else {
        let prev = pass_errors(readings.drop_last());
        match readings.last() {
            Ok(_) => prev,
            Err(e) => prev.push(e@),
        }
    }
}

/// The number of readings that succeeded.
pub open spec fn successes(readings: Seq<Result<u8, String>>) -> nat
    decreases readings.len(),
{
    if readings.len() == 0 {
        0
    } else {
        successes(readings.drop_last()) + if readings.last() is Ok {
            1nat
        } else {
            0nat
        }
    }
}

/// Session bookkeeping of PMBus passes: which passes produced a total, and
/// each rail's successes and failures.
#[derive(Debug, Clone)]
pub struct PowerTally {
    pub rails: Vec<RailTally>,
    pub valid_samples: u64,
    pub failed_samples: u64,
    pub last_sample_valid: bool,
    pub last_error: Option<String>,
}

impl PowerTally {
    pub fn new(rail_count: usize) -> (r: PowerTally)
        ensures
            r.rails@.len() == rail_count,
            forall|i: int| 0 <= i < rail_count ==> r.rails@[i] == (RailTally { samples: 0, errors: 0 }),
            r.valid_samples == 0,
            r.failed_samples == 0,
            !r.last_sample_valid,
            (r.last_error is None),
    {
        let mut rails: Vec<RailTally> = Vec::new();
        let mut i: usize = 0;
        while i < rail_count
            invariant
                i <= rail_count,
                rails@.len() == i,
                forall|j: int| 0 <= j < i ==> rails@[j] == (RailTally { samples: 0, errors: 0 }),
            decreases rail_count - i,
        {
            rails.push(RailTally { samples: 0, errors: 0 });
            i = i + 1;
        }
        PowerTally {
            rails,
            valid_samples: 0,
            failed_samples: 0,
            last_sample_valid: false,
            last_error: None,
        }
    }

    /// Records one pass. The pass is valid when any rail was read; each
    /// paired rail counts a success or an error, and the failures' messages
    /// joined with "; " become the last error.
    pub fn record(&mut self, readings: &[Result<u8, String>])
        ensures
            final(self).rails@ == tally_rails(old(self).rails@, readings@),
            final(self).last_sample_valid == (successes(readings@) > 0),
            final(self).valid_samples == if successes(readings@) > 0 {
                bump(old(self).valid_samples)
            } else {
                old(self).valid_samples
            },
            final(self).failed_samples == if successes(readings@) > 0 {
                old(self).failed_samples
            } else {
                bump(old(self).failed_samples)
            },
            ({
                let paired = readings@.take(
                    if readings@.len() <= old(self).rails@.len() {
                        readings@.len() as int
                    } else {
                        old(self).rails@.len() as int
                    },
                );
                match final(self).last_error {
                    Some(e) => pass_errors(paired).len() > 0 && e@ == joined(
                        pass_errors(paired),
                        "; "@,
                    ),
                    None => pass_errors(paired).len() == 0,
                }
            }),
    {
        let ghost old_rails = self.rails@;
        let paired: usize = if readings.len() <= self.rails.len() {
            readings.len()
        } else {
            self.rails.len()
        };
        let sep = to_chars("; ");
        let mut message: Vec<char> = Vec::new();
        let mut failures: usize = 0;
        let mut ok_count: usize = 0;
        let mut i: usize = 0;
        assert(readings@.take(0) =~= Seq::<Result<u8, String>>::empty());
        while i < readings.len()
            invariant
                i <= readings@.len(),
                paired <= readings@.len(),
                paired <= old_rails.len(),
                paired == readings@.len() || paired == old_rails.len(),
                self.rails@.len() == old_rails.len(),
                self.valid_samples == old(self).valid_samples,
                self.failed_samples == old(self).failed_samples,
                sep@ == "; "@,
                forall|j: int|
                    0 <= j < old_rails.len() ==> #[trigger] self.rails@[j] == if j < i && j
                        < readings@.len() {
                        tally_reading(old_rails[j], readings@[j])
                    } else {
                        old_rails[j]
                    },
                ok_count == successes(readings@.take(i as int)),
                ok_count <= i,
                failures <= i,
                failures == pass_errors(readings@.take(if i <= paired { i } else { paired } as int)).len(),
                message@ == joined(pass_errors(readings@.take(if i <= paired { i } else { paired } as int)), "; "@),
            decreases readings@.len() - i,
        {
            let ghost t = readings@.take(i + 1);
            assert(t.drop_last() =~= readings@.take(i as int));
            assert(t.last() == readings@[i as int]);
            let ghost before = pass_errors(readings@.take(if i <= paired { i } else { paired } as int));
            let ok = readings[i].is_ok();
            if ok {
                ok_count = ok_count + 1;
            }
            if i < paired {
                let current = self.rails[i];
                if ok {
                    self.rails.set(i, RailTally { samples: bump_u64(current.samples), errors: current.errors });
                } else {
                    self.rails.set(i, RailTally { samples: current.samples, errors: bump_u64(current.errors) });
                    match &readings[i] {
                        Err(error) => {
                            let text = to_chars(error.as_str());
                            if failures > 0 {
                                message.extend_from_slice(sep.as_slice());
                            }
                            message.extend_from_slice(text.as_slice());
                            proof {
                                let after = before.push(error@);
                                assert(readings@.take(i + 1).drop_last() =~= readings@.take(i as int));
                                assert(pass_errors(readings@.take(i + 1)) == after);
                                assert(after.drop_last() =~= before);
                                if before.len() > 0 {
                                    assert(joined(after, "; "@) == joined(before, "; "@) + "; "@ + error@);
                                }
                            }
                            failures = failures + 1;
                        },
                        Ok(_) => {},
                    }
                }
            }
            i = i + 1;
        }
        assert(self.rails@ =~= tally_rails(old_rails, readings@));
        assert(readings@.take(readings@.len() as int) =~= readings@);
        self.last_sample_valid = ok_count > 0;
        if ok_count > 0 {
            self.valid_samples = bump_u64(self.valid_samples);
        } else {
            self.failed_samples = bump_u64(self.failed_samples);
        }
        self.last_error = if failures > 0 {
            Some(crate::text::string_of(message.as_slice()))
        } else {
            None
        };
    }
}

/// The metric of one rail's power.
pub open spec fn rail_metric(r: RailSpec) -> MetricText {
    metric_text(r.key, r.name, r.name, "PowerRail"@, "W"@, "Latest valid POUT reading for this PMBus rail."@, None, None)
}

/// The board power metrics followed by one metric per configured rail.
pub open spec fn power_metrics(rails: Seq<RailSpec>) -> Seq<MetricText> {
    seq![
        metric_text("power_current_watts"@, "Current board power"@, "Current"@, "Power"@, "W"@, "Latest valid total PMBus POUT reading across configured board rails."@, None, None),
        metric_text("power_average_watts"@, "Average board power"@, "Average"@, "Power"@, "W"@, "Average valid total board power since the Sentinel daemon started."@, None, None),
        metric_text("power_peak_watts"@, "Peak board power"@, "Peak"@, "Power"@, "W"@, "Peak valid total board power since the Sentinel daemon started."@, None, None)
    ] + rails.map_values(|r: RailSpec| rail_metric(r))
}

/// The definitions of the power metrics for a configuration.
pub fn power_metric_definitions(config: &PowerConfig) -> (r: Vec<MetricDefinition>)
    ensures
        definitions_view(r@) == power_metrics(rails_view(config.rails@)),
{
    let mut out: Vec<MetricDefinition> = Vec::new();
    push_definition(&mut out, MetricDefinition::new("power_current_watts", "Current board power", "Current", "Power", "W", "Latest valid total PMBus POUT reading across configured board rails.", None, None));
    push_definition(&mut out, MetricDefinition::new("power_average_watts", "Average board power", "Average", "Power", "W", "Average valid total board power since the Sentinel daemon started.", None, None));
    push_definition(&mut out, MetricDefinition::new("power_peak_watts", "Peak board power", "Peak", "Power", "W", "Peak valid total board power since the Sentinel daemon started.", None, None));
    let ghost base = definitions_view(out@);
    let ghost rails = rails_view(config.rails@);
    let mut k: usize = 0;
    while k < config.rails.len()
        invariant
            rails == rails_view(config.rails@),
            k <= config.rails@.len(),
            definitions_view(out@) == base + rails.take(k as int).map_values(|r: RailSpec| rail_metric(r)),
        decreases config.rails@.len() - k,
    {
        let rail = &config.rails[k];
        push_definition(&mut out, MetricDefinition::new(rail.key, rail.name, rail.name, "PowerRail", "W", "Latest valid POUT reading for this PMBus rail.", None, None));
        assert(rails.take(k + 1).map_values(|r: RailSpec| rail_metric(r)) =~= rails.take(k as int).map_values(|r: RailSpec| rail_metric(r)).push(rail_metric(rails[k as int])));
        k = k + 1;
    }
    assert(rails.take(config.rails@.len() as int) =~= rails);
    assert(power_metrics(rails) =~= base + rails.map_values(|r: RailSpec| rail_metric(r)));
    out
}

} // verus!
