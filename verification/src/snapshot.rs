//! Data model of the telemetry pipeline.
//!
//! Every scalar is a fixed-point integer: CPU usage in hundredths of a
//! percent, temperatures in hundredths of a degree Celsius, frequencies in
//! MHz, rates in bytes per second.

use vstd::prelude::*;

verus! {

/// One process observed in a sample: name, CPU usage in hundredths of a
/// percent, and resident memory in bytes.
pub struct CpuProcess {
    pub name: String,
    pub cpu: u64,
    pub mem: u64,
}

/// CPU metrics of one snapshot. `global` and each `per_core` entry are in
/// hundredths of a percent; `freq_mhz` is the average core frequency;
/// `temp_centi_c` is the hottest sensor reading in hundredths of a degree,
/// absent when the platform exposes no sensors.
pub struct CpuStats {
    pub global: u64,
    pub per_core: Vec<u64>,
    pub freq_mhz: u64,
    pub cores: usize,
    pub temp_centi_c: Option<u64>,
    pub top: Vec<CpuProcess>,
}

/// Memory metrics in bytes. `cached` and `buffers` are absent on platforms
/// that do not expose them.
pub struct MemStats {
    pub total: u64,
    pub used: u64,
    pub available: u64,
    pub cached: Option<u64>,
    pub buffers: Option<u64>,
    pub swap_total: u64,
    pub swap_used: u64,
}

/// One disk partition with capacity and usage in bytes.
pub struct DiskPart {
    pub name: String,
    pub mount: String,
    pub fs: String,
    pub total: u64,
    pub used: u64,
}

/// Disk metrics: the partition list, and aggregate block-device read/write
/// rates, present only when the platform exposes block I/O counters and a
/// previous sample existed.
pub struct DiskStats {
    pub parts: Vec<DiskPart>,
    pub read_bps: Option<u64>,
    pub write_bps: Option<u64>,
}

/// One network interface: addresses, optional link speed in Mbps, receive
/// and transmit rates in bytes per second, and cumulative packet counts.
pub struct NicStats {
    pub name: String,
    pub ipv4: Vec<String>,
    pub mac: Vec<String>,
    pub speed_mbps: Option<u64>,
    pub rx_bps: u64,
    pub tx_bps: u64,
    pub rx_packets: u64,
    pub tx_packets: u64,
}

/// One complete, self-consistent reading of all tracked metrics.
pub struct Snapshot {
    pub cpu: CpuStats,
    pub mem: MemStats,
    pub disk: DiskStats,
    pub net: Vec<NicStats>,
}

impl Snapshot {
    /// Well-formed snapshot: interface names are pairwise distinct, as an
    /// enumeration keyed by interface name yields them.
    pub open spec fn wf(self) -> bool {
        forall|i: int, j: int|
            0 <= i < j < self.net@.len() ==> self.net@[i].name@ != self.net@[j].name@
    }
}

/// Cumulative rx/tx byte counters of one interface, kept from the previous
/// sample to derive rates in the next one.
pub struct NicCounter {
    pub name: String,
    pub rx: u64,
    pub tx: u64,
}

/// Counters retained from the previous sample: per-interface cumulative
/// rx/tx bytes, and aggregate disk (read, write) bytes where the platform
/// exposes block I/O counters.
pub struct PreCounters {
    pub nic_bytes: Vec<NicCounter>,
    pub disk_bytes: Option<(u64, u64)>,
}

/// First entry of `s` whose interface name is `name`, as an (rx, tx) pair.
pub open spec fn nic_counter_lookup(s: Seq<NicCounter>, name: Seq<char>) -> Option<(u64, u64)>
    decreases s.len(),
{
    if s.len() == 0 {
        None
    } else if s[0].name@ == name {
        Some((s[0].rx, s[0].tx))
    } else {
        nic_counter_lookup(s.drop_first(), name)
    }
}

/// Look up the previous cumulative counters of the interface called `name`.
pub fn find_nic_counter(s: &Vec<NicCounter>, name: &String) -> (r: Option<(u64, u64)>)
    ensures
        r == nic_counter_lookup(s@, name@),
{
    let mut i: usize = 0;
    proof {
        assert(s@.skip(0) =~= s@);
    }
    while i < s.len()
        invariant
            0 <= i <= s@.len(),
            nic_counter_lookup(s@, name@) == nic_counter_lookup(s@.skip(i as int), name@),
        decreases s@.len() - i,
    {
        proof {
            assert(s@.skip(i as int)[0] == s@[i as int]);
            assert(s@.skip(i as int).drop_first() =~= s@.skip(i as int + 1));
        }
        if s[i].name == *name {
            return Some((s[i].rx, s[i].tx));
        }
        i = i + 1;
    }
    proof {
        assert(s@.skip(i as int).len() == 0);
    }
    None
}

} // verus!
