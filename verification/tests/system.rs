use simaai_sentinel::system::{
    block_parent, cpu_delta, disk_bytes, disk_device, disk_metric_definitions,
    fallback_block_device, parse_cpu_core_times, parse_cpu_times, parse_diskstats,
    parse_meminfo, parse_mla_allocated_bytes, parse_mounts, parse_netdev, parse_proc_stat,
    proc_stat_is_sliceable, sector_size, system_metric_definitions, trim_partition_suffix,
    DiskSectors,
};

#[test]
fn parses_cma_meminfo_fields_as_bytes() {
    let values = parse_meminfo(
        "MemTotal:       8192000 kB\n\
         MemAvailable:   4096000 kB\n\
         CmaTotal:       1048576 kB\n\
         CmaFree:         786432 kB\n",
    );

    assert_eq!(values.get("CmaTotal"), Some(&1_073_741_824));
    assert_eq!(values.get("CmaFree"), Some(&805_306_368));
}

#[test]
fn ignores_malformed_meminfo_fields() {
    let values = parse_meminfo("CmaTotal: unavailable kB\nMalformed\nCmaFree: 42 kB\n");

    assert!(!values.contains_key("CmaTotal"));
    assert_eq!(values.get("CmaFree"), Some(&43_008));
}

#[test]
fn meminfo_keeps_the_last_value_of_a_repeated_key() {
    let values = parse_meminfo("A: 1 kB\nA: 2 kB\n");
    assert_eq!(values.get("A"), Some(&2048));
    assert_eq!(values.get("B"), None);
}

#[test]
fn proc_stat_reads_name_ticks_rss_and_core() {
    let mut raw = String::from("42 (my (odd) proc) S");
    for field in 1..=40 {
        raw.push_str(&format!(" {field}"));
    }
    assert!(proc_stat_is_sliceable(&raw));
    let stat = parse_proc_stat(42, &raw).unwrap();
    assert_eq!(stat.pid, 42);
    assert_eq!(stat.name, "my (odd) proc");
    // Fields after ") " are "S 1 2 ...": utime is the 12th (11), stime the 13th (12).
    assert_eq!(stat.cpu_ticks, 11 + 12);
    assert_eq!(stat.rss_pages, 21);
    assert_eq!(stat.cpu_core, Some(36));
}

#[test]
fn proc_stat_without_enough_fields_is_none() {
    assert!(parse_proc_stat(1, "1 (init) S 0 1").is_none());
    assert!(parse_proc_stat(1, "no parentheses").is_none());
    assert!(!proc_stat_is_sliceable("1 (init)"));
}

#[test]
fn cpu_times_sum_fields_and_idle_plus_iowait() {
    let stat = "cpu  10 20 30 40 50 60\ncpu0 1 2 3 4 5\ncpu1 5 5 5 5\ncpux 1 1 1 1\nintr 5\n";
    assert_eq!(parse_cpu_times(stat), Some((210, 90)));
    assert_eq!(parse_cpu_core_times(stat), vec![(15, 9), (20, 5)]);
    assert_eq!(parse_cpu_times("cpu 1 2 3\n"), None);
    assert_eq!(parse_cpu_times(""), None);
}

#[test]
fn mounts_map_mount_point_to_device() {
    let mounts = parse_mounts("/dev/mmcblk0p2 / ext4 rw 0 0\n/dev/nvme0n1p1 /media/nvme ext4 rw 0 0\nbad\n");
    assert_eq!(mounts.get("/").map(String::as_str), Some("/dev/mmcblk0p2"));
    assert_eq!(
        mounts.get("/media/nvme").map(String::as_str),
        Some("/dev/nvme0n1p1")
    );
    assert!(!mounts.contains_key("bad"));
}

#[test]
fn netdev_skips_headers_and_loopback() {
    let raw = "Inter-|   Receive\n face |bytes\n    lo: 1 0 0 0 0 0 0 0 2 0 0 0 0 0 0 0\n  eth0: 100 0 0 0 0 0 0 0 200 0 0 0 0 0 0 0\n  eth1: 5 0\n";
    let dev = parse_netdev(raw);
    assert_eq!(dev.get("eth0"), Some(&(100, 200)));
    assert!(!dev.contains_key("lo"));
    assert!(!dev.contains_key("eth1"));
}

#[test]
fn diskstats_sectors_and_bytes() {
    let raw = "   179       0 mmcblk0 10 0 300 0 20 0 400 0 0 0 0\n short line\n";
    let disks = parse_diskstats(raw);
    assert_eq!(disks.len(), 1);
    assert_eq!(disks[0].name, "mmcblk0");
    assert_eq!((disks[0].sectors_read, disks[0].sectors_written), (300, 400));
    let sectors = DiskSectors {
        name: "mmcblk0".into(),
        sectors_read: 300,
        sectors_written: 400,
    };
    assert_eq!(disk_bytes(&sectors, 512), (153_600, 204_800));
    assert_eq!(sector_size(Some(" 4096\n")), 4096);
    assert_eq!(sector_size(Some("junk")), 512);
    assert_eq!(sector_size(None), 512);
}

#[test]
fn mla_allocation_is_read_as_hex() {
    assert_eq!(
        parse_mla_allocated_bytes("Header\nTotal allocated size: 0x100000 bytes\n"),
        Some(1_048_576)
    );
    assert_eq!(parse_mla_allocated_bytes("Total allocated size: ff"), Some(255));
    assert_eq!(parse_mla_allocated_bytes("nothing here"), None);
    assert_eq!(parse_mla_allocated_bytes("Total allocated size: zz"), None);
}

#[test]
fn partitions_map_to_their_disk() {
    assert_eq!(trim_partition_suffix("mmcblk0p2"), "mmcblk0");
    assert_eq!(trim_partition_suffix("nvme0n1p1"), "nvme0n1");
    assert_eq!(trim_partition_suffix("nvme0n1"), "nvme0n1");
    assert_eq!(block_parent("/dev/mmcblk0p2").as_deref(), Some("mmcblk0"));
    assert_eq!(block_parent("/dev/sda3").as_deref(), Some("sda"));
    assert_eq!(block_parent("/"), None);
}

#[test]
fn fallback_device_is_a_whole_disk_of_the_kind() {
    let names = vec![
        "mmcblk0".to_string(),
        "mmcblk0p1".to_string(),
        "nvme0n1".to_string(),
    ];
    assert_eq!(fallback_block_device("emmc", &names).as_deref(), Some("mmcblk0"));
    assert_eq!(fallback_block_device("nvme", &names).as_deref(), Some("nvme0n1"));
    assert_eq!(fallback_block_device("usb", &names), None);
    assert_eq!(
        disk_device("emmc", Some("/dev/mmcblk0p2"), &names).as_deref(),
        Some("mmcblk0")
    );
}

#[test]
fn cpu_delta_needs_progress() {
    assert_eq!(cpu_delta((100, 50), (200, 80)), Some((100, 30)));
    assert_eq!(cpu_delta((100, 50), (100, 60)), None);
}

#[test]
fn system_metrics_include_cores_and_disks() {
    let metrics = system_metric_definitions(2, false);
    assert_eq!(metrics.len(), 11 + 2 + 4);
    assert_eq!(metrics[0].key, "cpu_usage_pct");
    assert_eq!(metrics[0].warn, Some(80));
    assert_eq!(metrics[0].critical, Some(95));
    assert_eq!(metrics[11].key, "cpu_core_0_usage_pct");
    assert_eq!(metrics[12].label, "CPU core 1 usage");
    assert_eq!(metrics[12].short, "c1");
    assert_eq!(metrics[13].key, "disk_emmc_used_pct");
    assert_eq!(metrics[13].short, "eMMC%");
    let with_nvme = system_metric_definitions(0, true);
    assert_eq!(with_nvme.len(), 11 + 8);
    assert_eq!(with_nvme[15].key, "disk_nvme_used_pct");
    let disk = disk_metric_definitions("nvme", "NVMe");
    assert_eq!(disk[3].description, "NVMe block-device write rate.");
}
