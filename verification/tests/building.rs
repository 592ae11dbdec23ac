use sysmetrics::CpuProcess;
use sysmetrics::MemStats;
use sysmetrics::NicCounter;
use sysmetrics::PreCounters;
use sysmetrics::RawNic;
use sysmetrics::RawReadings;
use sysmetrics::build_snapshot;
use sysmetrics::rate_bps;

fn mk_raw_nic(name: &str, rx_bytes: u64, tx_bytes: u64) -> RawNic {
    RawNic {
        name: name.to_string(),
        ipv4: vec!["192.168.0.2".to_string()],
        mac: vec!["AA:BB:CC:DD:EE:FF".to_string()],
        speed_mbps: Some(1000),
        rx_bytes,
        tx_bytes,
        rx_packets: 11,
        tx_packets: 22,
    }
}

fn mk_raw() -> RawReadings {
    RawReadings {
        cpu_global: 2500,
        per_core: vec![2000, 3000],
        freqs_mhz: vec![2000, 3000],
        temps: vec![4500, 5100, 300],
        procs: vec![
            CpuProcess { name: "a".to_string(), cpu: 100, mem: 1 },
            CpuProcess { name: "b".to_string(), cpu: 900, mem: 2 },
            CpuProcess { name: "c".to_string(), cpu: 500, mem: 3 },
            CpuProcess { name: "d".to_string(), cpu: 700, mem: 4 },
        ],
        mem: MemStats {
            total: 1000,
            used: 400,
            available: 600,
            cached: Some(50),
            buffers: Some(10),
            swap_total: 100,
            swap_used: 5,
        },
        parts: vec![],
        disk_io: None,
        nics: vec![],
    }
}

#[test]
fn no_previous_sample_rates_absent() {
    let mut raw = mk_raw();
    raw.disk_io = Some((4000, 8000));
    raw.nics = vec![mk_raw_nic("eth0", 4000, 2000)];
    let snap = build_snapshot(raw, None);
    assert_eq!(snap.disk.read_bps, None);
    assert_eq!(snap.disk.write_bps, None);
    for nic in &snap.net {
        assert_eq!(nic.rx_bps, 0);
        assert_eq!(nic.tx_bps, 0);
    }
}

#[test]
fn rates_computed_from_previous_counters() {
    let mut raw = mk_raw();
    raw.disk_io = Some((4000, 8000));
    raw.nics = vec![mk_raw_nic("eth0", 4000, 2000)];
    let prev = PreCounters {
        nic_bytes: vec![NicCounter { name: "eth0".to_string(), rx: 1000, tx: 500 }],
        disk_bytes: Some((1000, 2000)),
    };
    let snap = build_snapshot(raw, Some((1500, &prev)));
    // 3000 bytes over 1.5 s = 2000 B/s; 1500 over 1.5 s = 1000 B/s.
    assert_eq!(snap.net[0].rx_bps, 2000);
    assert_eq!(snap.net[0].tx_bps, 1000);
    assert_eq!(snap.disk.read_bps, Some(2000));
    assert_eq!(snap.disk.write_bps, Some(4000));
}

#[test]
fn counter_reset_yields_zero_rate() {
    assert_eq!(rate_bps(4000, 1000, 1500), 0);
    assert_eq!(rate_bps(u64::MAX, 0, 1), 0);
}

#[test]
fn rate_exact_value() {
    assert_eq!(rate_bps(1000, 4000, 1500), 2000);
}

#[test]
fn rate_elapsed_floored_to_one_millisecond() {
    assert_eq!(rate_bps(0, 100, 0), 100_000);
}

#[test]
fn rate_saturates_at_max() {
    assert_eq!(rate_bps(0, u64::MAX, 0), u64::MAX);
}

#[test]
fn unknown_interface_gets_zero_rate() {
    let mut raw = mk_raw();
    raw.nics = vec![mk_raw_nic("eth0", 4000, 2000), mk_raw_nic("wlan0", 900, 800)];
    let prev = PreCounters {
        nic_bytes: vec![NicCounter { name: "eth0".to_string(), rx: 1000, tx: 500 }],
        disk_bytes: None,
    };
    let snap = build_snapshot(raw, Some((1000, &prev)));
    assert_eq!(snap.net[0].name, "eth0");
    assert_eq!(snap.net[0].rx_bps, 3000);
    assert_eq!(snap.net[1].name, "wlan0");
    assert_eq!(snap.net[1].rx_bps, 0);
    assert_eq!(snap.net[1].tx_bps, 0);
}

#[test]
fn frequency_is_average_of_cores() {
    let snap = build_snapshot(mk_raw(), None);
    assert_eq!(snap.cpu.freq_mhz, 2500);
    assert_eq!(snap.cpu.cores, 2);
    assert_eq!(snap.cpu.global, 2500);
    assert_eq!(snap.cpu.per_core, vec![2000, 3000]);
}

#[test]
fn temperature_is_hottest_sensor() {
    let snap = build_snapshot(mk_raw(), None);
    assert_eq!(snap.cpu.temp_centi_c, Some(5100));
    let mut raw = mk_raw();
    raw.temps = vec![];
    let snap = build_snapshot(raw, None);
    assert_eq!(snap.cpu.temp_centi_c, None);
}

#[test]
fn top_processes_sorted_and_cut_to_core_count() {
    let snap = build_snapshot(mk_raw(), None);
    // Two cores: the over-sampled candidate list keeps the two hottest.
    assert_eq!(snap.cpu.top.len(), 2);
    assert_eq!(snap.cpu.top[0].name, "b");
    assert_eq!(snap.cpu.top[0].cpu, 900);
    assert_eq!(snap.cpu.top[1].name, "d");
    assert_eq!(snap.cpu.top[1].cpu, 700);
}

#[test]
fn memory_fields_pass_through() {
    let snap = build_snapshot(mk_raw(), None);
    assert_eq!(snap.mem.total, 1000);
    assert_eq!(snap.mem.used, 400);
    assert_eq!(snap.mem.available, 600);
    assert_eq!(snap.mem.cached, Some(50));
    assert_eq!(snap.mem.buffers, Some(10));
    assert_eq!(snap.mem.swap_total, 100);
    assert_eq!(snap.mem.swap_used, 5);
}

#[test]
fn pre_counters_retain_cumulative_bytes() {
    let mut raw = mk_raw();
    raw.disk_io = Some((123, 456));
    raw.nics = vec![mk_raw_nic("eth0", 4000, 2000), mk_raw_nic("wlan0", 9, 8)];
    let pre = PreCounters::from_raw(&raw);
    assert_eq!(pre.disk_bytes, Some((123, 456)));
    assert_eq!(pre.nic_bytes.len(), 2);
    assert_eq!(pre.nic_bytes[0].name, "eth0");
    assert_eq!(pre.nic_bytes[0].rx, 4000);
    assert_eq!(pre.nic_bytes[0].tx, 2000);
    assert_eq!(pre.nic_bytes[1].name, "wlan0");
    assert_eq!(pre.nic_bytes[1].rx, 9);
    assert_eq!(pre.nic_bytes[1].tx, 8);
}
