use simaai_sentinel::cache::{default_cache_path, tmp_path};
use simaai_sentinel::keyed::TextMap;
use simaai_sentinel::api::percent_decode;
use simaai_sentinel::cli::{metadata_path, temp_output_path};
use simaai_sentinel::runs::{active_path, completed_path};
use simaai_sentinel::system::block_parent;
use simaai_sentinel::text::concat3;
use simaai_sentinel::thermal::{
    board_sensors, hwmon_name_matches, parse_millidegrees, rtsn_group, rtsn_input, rtsn_key,
    rtsn_role, rtsn_site, thermal_metric_definitions, ThermalCollector, MODALIX_HWMON_NAME,
    RTSN_CHANNELS,
};

#[test]
fn rtsn_channels_map_to_sites_and_files() {
    assert_eq!(RTSN_CHANNELS, 14);
    assert_eq!(rtsn_key(13), "rtsn_13");
    assert_eq!(rtsn_input(0), "temp1_input");
    assert_eq!(rtsn_input(13), "temp14_input");
    assert_eq!(rtsn_input(41), "temp42_input");
    assert_eq!(rtsn_group(4), "APU");
    assert_eq!(rtsn_group(10), "MLA");
    assert_eq!(rtsn_site(13), "TOP (near PCIE/ETH area)");
    assert_eq!(rtsn_role(6), "Alert");
    assert_eq!(rtsn_role(7), "Trip");
    assert_eq!(MODALIX_HWMON_NAME, "simaai_modalix_thermal_sensor");
}

#[test]
fn hwmon_files_are_matched_and_parsed() {
    assert!(hwmon_name_matches("lm96163\n", "lm96163"));
    assert!(!hwmon_name_matches("unrelated\n", "lm96163"));
    assert_eq!(parse_millidegrees("-12500\n"), Some(-12500));
    assert_eq!(parse_millidegrees("120000\n"), Some(120000));
    assert_eq!(parse_millidegrees("NaN"), None);
    assert_eq!(parse_millidegrees("40000.5"), None);
    assert_eq!(board_sensors()[2].chip, "a800000ethernetmdio000");
    assert_eq!(
        ThermalCollector::new().unwrap().hwmon_root,
        "/sys/class/hwmon"
    );
}

#[test]
fn thermal_metrics_cover_every_channel_and_sensor() {
    let metrics = thermal_metric_definitions();
    assert_eq!(metrics.len(), 17);
    assert_eq!(metrics[0].key, "rtsn_0");
    assert_eq!(metrics[0].label, "MLA RTSN-0");
    assert_eq!(metrics[0].short, "MLA-0");
    assert_eq!(
        metrics[7].description,
        "On-die RTSN at the MLA Q0 site; feeds DTS Hub Trip channel 7."
    );
    assert_eq!(metrics[13].group, "TOP");
    assert_eq!(metrics[14].key, "lm96163_temp1");
    assert_eq!(metrics[16].unit, "C");
    assert_eq!(metrics[16].warn, Some(70));
    assert_eq!(metrics[16].critical, Some(85));
}

#[test]
fn cache_paths() {
    assert_eq!(default_cache_path(), "/run/simaai-sentinel/cache.json");
    assert_eq!(tmp_path("/run/x/cache.json"), "/run/x/.cache.json.tmp");
    assert_eq!(tmp_path("/"), "/.cache.json.tmp");
}

#[test]
fn path_handling_follows_std_path() {
    assert_eq!(block_parent("/dev/b.json1").as_deref(), Some("b.json"));
    assert_eq!(block_parent("/"), None);
    assert_eq!(active_path("/a"), "/a/active.json");
    assert_eq!(completed_path("/a", "/b"), "/b.json");
    assert_eq!(tmp_path("/a/b"), "/a/.b.tmp");
    assert_eq!(metadata_path("/a/b.tar.gz"), "/a/b.tar.gz.metadata.json");
    assert_eq!(metadata_path("/a/b"), "/a/b.csv.metadata.json");
    assert_eq!(temp_output_path("/a/b.csv"), "/a/b.csv.tmp");
}

#[test]
fn text_helpers() {
    assert_eq!(percent_decode("ok").unwrap(), "ok");
    assert!(percent_decode("%ff").is_err());
    assert_eq!(concat3("a", "b", "c"), "abc");
    let mut map: TextMap<u64> = TextMap::new();
    map.insert("k".into(), 1);
    map.insert("k".into(), 2);
    assert_eq!(map.get("k"), Some(&2));
    assert!(!map.contains_key("j"));
}
