use std::sync::Mutex;

use simaai_sentinel::power::{
    detect_power_profile, detect_power_profile_from_model, power_metric_definitions,
    rails_for_profile, read_power_registers, Interval, PowerConfig, PowerI2cBackend,
    PowerProfile, PowerRailConfig, PowerTally, POUT_REGISTER,
};

#[test]
fn profiles_match_core_power_telemetry() {
    let som = rails_for_profile(PowerProfile::ModalixSom);
    assert_eq!(som.len(), 8);
    assert_eq!((som[0].i2c_bus, som[0].i2c_addr, som[0].page), (3, 0x4f, 0));
    assert_eq!(som[0].pout_exponent, -2);
    assert_eq!((som[4].i2c_addr, som[4].page), (0x4d, 0));
    assert_eq!(som[4].pout_exponent, -2);

    let dvt = rails_for_profile(PowerProfile::ModalixDvt);
    assert_eq!(dvt.len(), 1);
    assert_eq!((dvt[0].i2c_bus, dvt[0].i2c_addr, dvt[0].page), (4, 0x4d, 0));
    assert_eq!(dvt[0].pout_exponent, -2);
}

#[test]
fn detects_dvt_and_defaults_to_som() {
    assert_eq!(
        detect_power_profile_from_model("SiMa.ai Modalix DVT"),
        PowerProfile::ModalixDvt
    );
    assert_eq!(
        detect_power_profile_from_model("SiMa.ai Modalix SOM"),
        PowerProfile::ModalixSom
    );
    assert_eq!(
        detect_power_profile_from_model("unknown"),
        PowerProfile::ModalixSom
    );
}

#[test]
fn device_tree_model_is_read_lossily_and_nul_trimmed() {
    assert_eq!(
        detect_power_profile(Some(b"SiMa.ai Modalix DVT\0")),
        PowerProfile::ModalixDvt
    );
    assert_eq!(
        detect_power_profile(Some(b"sima.ai modalix dvt board\0\0")),
        PowerProfile::ModalixDvt
    );
    assert_eq!(detect_power_profile(Some(b"\xffSiMa.ai Modalix DVT")), PowerProfile::ModalixDvt);
    assert_eq!(detect_power_profile(Some(b"\xffDVT")), PowerProfile::ModalixSom);
    assert_eq!(detect_power_profile(None), PowerProfile::ModalixSom);
    assert_eq!(detect_power_profile(Some(b"")), PowerProfile::ModalixSom);
}

#[test]
fn profile_names_are_stable() {
    assert_eq!(PowerProfile::ModalixSom.name(), "modalix_som");
    assert_eq!(PowerProfile::ModalixDvt.name(), "modalix_dvt");
}

#[test]
fn auto_config_picks_profile_rails_and_interval() {
    let config = PowerConfig::auto(Some(b"Modalix DVT"), Interval::from_millis(100));
    assert_eq!(config.profile, PowerProfile::ModalixDvt);
    assert_eq!(config.rails.len(), 1);
    assert_eq!(config.sample_interval.as_millis(), 100);
    let fast = PowerConfig::auto(None, Interval::from_nanos(10));
    assert_eq!(fast.profile, PowerProfile::ModalixSom);
    assert_eq!(fast.rails.len(), 8);
    assert_eq!(fast.sample_interval.as_millis(), 1);
}

#[derive(Default)]
struct FakeBackend {
    calls: Mutex<Vec<String>>,
    pout: Mutex<Vec<((i32, u8, u8), u8)>>,
    page: Mutex<Option<(i32, u8, u8)>>,
}

impl PowerI2cBackend for FakeBackend {
    fn set_page(&self, bus: i32, addr: u8, page: u8) -> Result<(), String> {
        self.calls
            .lock()
            .unwrap()
            .push(format!("page:{bus}:{addr:x}:{page}"));
        *self.page.lock().unwrap() = Some((bus, addr, page));
        Ok(())
    }

    fn read_register(&self, bus: i32, addr: u8, register: u8) -> Result<u8, String> {
        self.calls
            .lock()
            .unwrap()
            .push(format!("read:{bus}:{addr:x}:{register:x}"));
        let page = self.page.lock().unwrap().unwrap();
        assert_eq!((page.0, page.1), (bus, addr));
        self.pout
            .lock()
            .unwrap()
            .iter()
            .find(|(key, _)| *key == page)
            .map(|(_, value)| *value)
            .ok_or_else(|| "missing fake register".into())
    }
}

fn som_config() -> PowerConfig {
    PowerConfig {
        profile: PowerProfile::ModalixSom,
        sample_interval: Interval::from_millis(100),
        rails: rails_for_profile(PowerProfile::ModalixSom),
    }
}

#[test]
fn reads_pout_with_scaling_and_partial_failure() {
    let mut config = som_config();
    config.rails.truncate(2);
    let backend = FakeBackend::default();
    backend.pout.lock().unwrap().push(((3, 0x4f, 0), 8));

    let readings = read_power_registers(&config, &backend);
    assert_eq!(readings.len(), 2);
    assert_eq!(readings[0], Ok(8));
    assert!(readings[1].is_err());
    // Watts are each raw POUT byte scaled by the rail's exponent.
    let watts: Vec<Option<f64>> = readings
        .iter()
        .zip(&config.rails)
        .map(|(reading, rail)| {
            reading
                .as_ref()
                .ok()
                .map(|raw| f64::from(*raw) * 2f64.powi(rail.pout_exponent))
        })
        .collect();
    let rails_with_power = watts.iter().filter(|w| w.is_some()).count();
    let total_watts: f64 = watts.iter().flatten().sum();
    assert_eq!(rails_with_power, 1);
    assert_eq!(total_watts, 2.0);
    assert_eq!(watts[0], Some(2.0));
    assert_eq!(watts[1], None);
    assert_eq!(POUT_REGISTER, 0x96);
    assert_eq!(
        backend.calls.lock().unwrap().as_slice(),
        ["page:3:4f:0", "read:3:4f:96", "page:3:4f:1", "read:3:4f:96"]
    );
}

#[test]
fn aggregates_only_valid_totals_and_tracks_errors() {
    let mut tally = PowerTally::new(2);
    tally.record(&[Ok(8), Ok(4)]);
    tally.record(&[Ok(20), Err("read failed".to_string())]);
    tally.record(&[Err("read failed".to_string()), Err("read failed".to_string())]);

    assert_eq!(tally.valid_samples, 2);
    assert_eq!(tally.failed_samples, 1);
    assert!(!tally.last_sample_valid);
    assert_eq!(tally.rails[0].samples, 2);
    assert_eq!(tally.rails[0].errors, 1);
    assert_eq!(tally.rails[1].errors, 2);
    assert!(tally.last_error.unwrap().contains("read failed"));
}

#[test]
fn failed_pass_joins_every_error_message() {
    let mut tally = PowerTally::new(3);
    tally.record(&[Err("a".to_string()), Ok(1), Err("b".to_string())]);
    assert!(tally.last_sample_valid);
    assert_eq!(tally.last_error.as_deref(), Some("a; b"));
    tally.record(&[Ok(1), Ok(2), Ok(3)]);
    assert_eq!(tally.last_error, None);
    assert_eq!(tally.valid_samples, 2);
    assert_eq!(tally.rails[1].samples, 2);
}

#[test]
fn power_metrics_list_totals_then_rails() {
    let config = som_config();
    let metrics = power_metric_definitions(&config);
    assert_eq!(metrics.len(), 11);
    assert_eq!(metrics[0].key, "power_current_watts");
    assert_eq!(metrics[2].label, "Peak board power");
    assert_eq!(metrics[3].key, "power_rail_soc_ddr_vdd_watts");
    assert_eq!(metrics[3].short, "SoC and DDR VDD");
    assert_eq!(metrics[3].group, "PowerRail");
    assert_eq!(metrics[10].unit, "W");
}

#[test]
fn rail_config_fields_are_plain_values() {
    let rail: &PowerRailConfig = &rails_for_profile(PowerProfile::ModalixSom)[7];
    assert_eq!(rail.key, "power_rail_platform_3v3_watts");
    assert_eq!(rail.pout_exponent, -5);
}
