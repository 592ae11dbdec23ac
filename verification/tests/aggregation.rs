use sysmetrics::Accum;
use sysmetrics::Cache;
use sysmetrics::CpuProcess;
use sysmetrics::CpuStats;
use sysmetrics::DiskStats;
use sysmetrics::MemStats;
use sysmetrics::NicStats;
use sysmetrics::Snapshot;

fn mk_nic(name: &str, rx_bps: u64, tx_bps: u64) -> NicStats {
    NicStats {
        name: name.to_string(),
        ipv4: vec![],
        mac: vec![],
        speed_mbps: None,
        rx_bps,
        tx_bps,
        rx_packets: 0,
        tx_packets: 0,
    }
}

fn mk_snap(global: u64, per_core: Vec<u64>, used: u64, available: u64) -> Snapshot {
    let cores = per_core.len();
    Snapshot {
        cpu: CpuStats {
            global,
            per_core,
            freq_mhz: 2400,
            cores,
            temp_centi_c: None,
            top: vec![],
        },
        mem: MemStats {
            total: 16_000,
            used,
            available,
            cached: None,
            buffers: None,
            swap_total: 8_000,
            swap_used: 100,
        },
        disk: DiskStats { parts: vec![], read_bps: None, write_bps: None },
        net: vec![],
    }
}

#[test]
fn constant_window_average_is_exact() {
    let mut acc = Accum::new();
    for _ in 0..3 {
        acc.fold(mk_snap(1234, vec![1234, 1234], 500, 700));
    }
    let out = acc.emit().expect("window had folds");
    assert_eq!(out.cpu.global, 1234);
    assert_eq!(out.cpu.per_core, vec![1234, 1234]);
    assert_eq!(out.mem.used, 500);
    assert_eq!(out.mem.available, 700);
}

#[test]
fn window_average_is_floor_of_mean() {
    let mut acc = Accum::new();
    acc.fold(mk_snap(10, vec![10], 10, 0));
    acc.fold(mk_snap(20, vec![20], 20, 0));
    acc.fold(mk_snap(41, vec![41], 41, 0));
    let out = acc.emit().expect("window had folds");
    // 71 / 3 == 23 in integer division.
    assert_eq!(out.cpu.global, 23);
    assert_eq!(out.cpu.per_core, vec![23]);
    assert_eq!(out.mem.used, 23);
}

#[test]
fn per_core_vector_regrows_from_new_sample() {
    let mut acc = Accum::new();
    acc.fold(mk_snap(1000, vec![1000, 1000], 0, 0));
    acc.fold(mk_snap(3000, vec![3000, 3000, 3000], 0, 0));
    // The per-core sums restarted from the new sample's values: the new
    // slot holds the sample itself, not a zero-diluted remainder.
    assert_eq!(acc.cpu_per_core_sum, vec![3000, 3000, 3000]);
    let out = acc.emit().expect("window had folds");
    // The averages still divide by the full window count of two.
    assert_eq!(out.cpu.per_core, vec![1500, 1500, 1500]);
}

#[test]
fn empty_window_emits_nothing() {
    let mut acc = Accum::new();
    assert!(acc.emit().is_none());
    acc.fold(mk_snap(100, vec![100], 0, 0));
    assert!(acc.emit().is_some());
    // The next window saw no fold: nothing is published, no stale
    // re-emission of the last snapshot, and no division by zero.
    assert!(acc.emit().is_none());
}

#[test]
fn vanished_interface_sums_freeze() {
    let mut acc = Accum::new();
    let mut first = mk_snap(0, vec![0], 0, 0);
    first.net = vec![mk_nic("eth0", 100, 10), mk_nic("wlan0", 7, 3)];
    acc.fold(first);
    let mut second = mk_snap(0, vec![0], 0, 0);
    second.net = vec![mk_nic("eth0", 300, 30)];
    acc.fold(second);

    let eth = acc.net_sum.iter().find(|e| e.name == "eth0").expect("eth0 accumulated");
    assert_eq!(eth.rx_sum, 400);
    assert_eq!(eth.tx_sum, 40);
    // The vanished interface's sums stopped updating but were neither
    // dropped nor merged into another interface's entry.
    let wlan = acc.net_sum.iter().find(|e| e.name == "wlan0").expect("wlan0 retained");
    assert_eq!(wlan.rx_sum, 7);
    assert_eq!(wlan.tx_sum, 3);

    // Emission follows the last sample's interface list.
    let out = acc.emit().expect("window had folds");
    assert_eq!(out.net.len(), 1);
    assert_eq!(out.net[0].name, "eth0");
    assert_eq!(out.net[0].rx_bps, 200);
    assert_eq!(out.net[0].tx_bps, 20);
}

#[test]
fn top_list_sorted_and_cut_to_ten() {
    let mut acc = Accum::new();
    let mut snap = mk_snap(0, vec![0], 0, 0);
    let mut procs = Vec::new();
    for i in 0..12u64 {
        procs.push(CpuProcess { name: format!("p{}", i), cpu: i * 100, mem: i });
    }
    snap.cpu.top = procs;
    acc.fold(snap);
    let out = acc.emit().expect("window had folds");
    assert_eq!(out.cpu.top.len(), 10);
    for w in out.cpu.top.windows(2) {
        assert!(w[0].cpu >= w[1].cpu);
    }
    // One fold seeds every smoothing entry with the raw value, so the
    // emitted list is the raw top ten.
    assert_eq!(out.cpu.top[0].cpu, 1100);
    assert_eq!(out.cpu.top[9].cpu, 200);
}

#[test]
fn top_list_uses_smoothed_values() {
    let mut acc = Accum::new();
    let mut first = mk_snap(0, vec![0], 0, 0);
    first.cpu.top = vec![CpuProcess { name: "worker".to_string(), cpu: 1000, mem: 5 }];
    acc.fold(first);
    let mut second = mk_snap(0, vec![0], 0, 0);
    second.cpu.top = vec![CpuProcess { name: "worker".to_string(), cpu: 2000, mem: 5 }];
    acc.fold(second);
    // Seeded with 1000, then one smoothing step toward 2000:
    // (3 * 2000 + 7 * 1000) / 10 == 1300.
    let out = acc.emit().expect("window had folds");
    assert_eq!(out.cpu.top.len(), 1);
    assert_eq!(out.cpu.top[0].cpu, 1300);
}

#[test]
fn smoothing_persists_across_windows() {
    let mut acc = Accum::new();
    let mut first = mk_snap(0, vec![0], 0, 0);
    first.cpu.top = vec![CpuProcess { name: "worker".to_string(), cpu: 1000, mem: 5 }];
    acc.fold(first);
    acc.emit().expect("window had folds");
    // The smoothing map survived the reset: the next window smooths from
    // the seeded 1000, it does not reseed with 2000.
    let mut second = mk_snap(0, vec![0], 0, 0);
    second.cpu.top = vec![CpuProcess { name: "worker".to_string(), cpu: 2000, mem: 5 }];
    acc.fold(second);
    let out = acc.emit().expect("window had folds");
    assert_eq!(out.cpu.top[0].cpu, 1300);
}

#[test]
fn emission_resets_the_window() {
    let mut acc = Accum::new();
    acc.fold(mk_snap(10, vec![10], 100, 100));
    let first = acc.emit().expect("window had folds");
    assert_eq!(first.cpu.global, 10);
    // The next window averages only its own folds, not the previous
    // window's.
    acc.fold(mk_snap(30, vec![30], 300, 300));
    let second = acc.emit().expect("window had folds");
    assert_eq!(second.cpu.global, 30);
    assert_eq!(second.mem.used, 300);
}

#[test]
fn disk_rates_average_when_present() {
    let mut acc = Accum::new();
    let mut first = mk_snap(0, vec![0], 0, 0);
    first.disk.read_bps = Some(1000);
    first.disk.write_bps = Some(3000);
    acc.fold(first);
    let mut second = mk_snap(0, vec![0], 0, 0);
    second.disk.read_bps = Some(2000);
    second.disk.write_bps = Some(5000);
    acc.fold(second);
    let out = acc.emit().expect("window had folds");
    assert_eq!(out.disk.read_bps, Some(1500));
    assert_eq!(out.disk.write_bps, Some(4000));
}

#[test]
fn disk_rates_fall_back_to_base_when_absent() {
    let mut acc = Accum::new();
    acc.fold(mk_snap(0, vec![0], 0, 0));
    let out = acc.emit().expect("window had folds");
    assert_eq!(out.disk.read_bps, None);
    assert_eq!(out.disk.write_bps, None);
}

#[test]
fn cache_overwrites_and_drains() {
    let mut cache = Cache::new();
    assert!(cache.get_and_clear().is_none());
    cache.set(mk_snap(1, vec![1], 0, 0));
    cache.set(mk_snap(2, vec![2], 0, 0));
    let got = cache.get_and_clear().expect("a value was set");
    assert_eq!(got.cpu.global, 2);
    assert!(cache.get_and_clear().is_none());
}
