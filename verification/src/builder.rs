//! Snapshot builder: turns one set of raw platform readings, plus the
//! counters retained from the previous sample, into a fully populated
//! snapshot with rates computed.

use crate::rates::rate_bps;
use crate::rates::rate_sat;
use crate::snapshot::CpuProcess;
use crate::snapshot::CpuStats;
use crate::snapshot::DiskPart;
use crate::snapshot::DiskStats;
use crate::snapshot::MemStats;
use crate::snapshot::NicCounter;
use crate::snapshot::NicStats;
use crate::snapshot::PreCounters;
use crate::snapshot::Snapshot;
use crate::snapshot::find_nic_counter;
use crate::snapshot::nic_counter_lookup;
use crate::topsort::sort_top_desc;
use crate::topsort::sorted_desc;
use vstd::arithmetic::div_mod::lemma_div_by_multiple;
use vstd::arithmetic::div_mod::lemma_div_is_ordered;
use vstd::prelude::*;

verus! {

/// Raw readings of one network interface, as the platform reports them:
/// cumulative counters, addresses, and an optional link speed.
pub struct RawNic {
    pub name: String,
    pub ipv4: Vec<String>,
    pub mac: Vec<String>,
    pub speed_mbps: Option<u64>,
    pub rx_bytes: u64,
    pub tx_bytes: u64,
    pub rx_packets: u64,
    pub tx_packets: u64,
}

/// One round of raw platform readings handed to the builder. CPU usages
/// are in hundredths of a percent, frequencies in MHz, temperatures in
/// hundredths of a degree Celsius; `disk_io` holds cumulative (read, write)
/// byte counters where the platform exposes them.
pub struct RawReadings {
    pub cpu_global: u64,
    pub per_core: Vec<u64>,
    pub freqs_mhz: Vec<u64>,
    pub temps: Vec<u64>,
    pub procs: Vec<CpuProcess>,
    pub mem: MemStats,
    pub parts: Vec<DiskPart>,
    pub disk_io: Option<(u64, u64)>,
    pub nics: Vec<RawNic>,
}

/// The raw interface list names each interface once.
pub open spec fn raw_nics_distinct(s: Seq<RawNic>) -> bool {
    forall|i: int, j: int| 0 <= i < j < s.len() ==> s[i].name@ != s[j].name@
}

/// Sum of a sequence of readings.
pub open spec fn seq_sum_u64(s: Seq<u64>) -> int
    decreases s.len(),
{
    if s.len() == 0 {
        0
    } else {
        seq_sum_u64(s.drop_last()) + s.last()
    }
}

/// Receive rate owed to one interface: zero without a previous sample or
/// without previous counters for the same interface name, the saturated
/// counter-delta rate otherwise.
pub open spec fn nic_rx_rate(rn: RawNic, prev: Option<(u64, &PreCounters)>) -> u64 {
    match prev {
        Option::None => 0u64,
        Option::Some(p) => match nic_counter_lookup(p.1.nic_bytes@, rn.name@) {
            Option::None => 0u64,
            Option::Some(c) => rate_sat(c.0, rn.rx_bytes, p.0) as u64,
        },
    }
}

/// Transmit rate owed to one interface, as `nic_rx_rate`.
pub open spec fn nic_tx_rate(rn: RawNic, prev: Option<(u64, &PreCounters)>) -> u64 {
    match prev {
        Option::None => 0u64,
        Option::Some(p) => match nic_counter_lookup(p.1.nic_bytes@, rn.name@) {
            Option::None => 0u64,
            Option::Some(c) => rate_sat(c.1, rn.tx_bytes, p.0) as u64,
        },
    }
}

/// Aggregate disk read rate: present exactly when the platform exposes
/// block I/O counters and the previous sample retained them.
pub open spec fn disk_read_rate(
    disk_io: Option<(u64, u64)>,
    prev: Option<(u64, &PreCounters)>,
) -> Option<u64> {
    match (disk_io, prev) {
        (Option::Some(io), Option::Some(p)) => match p.1.disk_bytes {
            Option::Some(pd) => Option::Some(rate_sat(pd.0, io.0, p.0) as u64),
            Option::None => Option::None,
        },
        _ => Option::None,
    }
}

/// Aggregate disk write rate, as `disk_read_rate`.
pub open spec fn disk_write_rate(
    disk_io: Option<(u64, u64)>,
    prev: Option<(u64, &PreCounters)>,
) -> Option<u64> {
    match (disk_io, prev) {
        (Option::Some(io), Option::Some(p)) => match p.1.disk_bytes {
            Option::Some(pd) => Option::Some(rate_sat(pd.1, io.1, p.0) as u64),
            Option::None => Option::None,
        },
        _ => Option::None,
    }
}

/// The produced interface entry carries the raw identity fields unchanged
/// and the rates owed to the raw counters.
pub open spec fn nic_out_matches(
    out: NicStats,
    rn: RawNic,
    prev: Option<(u64, &PreCounters)>,
) -> bool {
    &&& out.name == rn.name
    &&& out.ipv4 == rn.ipv4
    &&& out.mac == rn.mac
    &&& out.speed_mbps == rn.speed_mbps
    &&& out.rx_packets == rn.rx_packets
    &&& out.tx_packets == rn.tx_packets
    &&& out.rx_bps == nic_rx_rate(rn, prev)
    &&& out.tx_bps == nic_tx_rate(rn, prev)
}

/// Average of the per-core frequencies, zero when no core was reported.
pub fn avg_freq_mhz(v: &Vec<u64>) -> (r: u64)
    ensures
        v@.len() == 0 ==> r == 0,
        v@.len() > 0 ==> r == seq_sum_u64(v@) / v@.len() as int,
{
    if v.len() == 0 {
        return 0;
    }
    let n = v.len();
    let mut sum: u128 = 0;
    let mut i: usize = 0;
    while i < n
        invariant
            0 <= i <= n,
            n == v@.len(),
            sum == seq_sum_u64(v@.subrange(0, i as int)),
            sum <= i * (u64::MAX as int),
        decreases n - i,
    {
        proof {
            assert(v@.subrange(0, i as int + 1).drop_last() =~= v@.subrange(0, i as int));
            assert((i + 1) * (u64::MAX as int) == i * (u64::MAX as int) + u64::MAX as int)
                by (nonlinear_arith);
        }
        sum = sum + v[i] as u128;
        i = i + 1;
    }
    proof {
        assert(v@.subrange(0, n as int) =~= v@);
        lemma_div_is_ordered(sum as int, n as int * u64::MAX as int, n as int);
        lemma_div_by_multiple(u64::MAX as int, n as int);
        assert(n as int * u64::MAX as int == u64::MAX as int * n as int) by (nonlinear_arith);
    }
    (sum / n as u128) as u64
}

/// Hottest sensor reading, absent when no sensor reported one.
pub fn max_temp_centi(v: &Vec<u64>) -> (r: Option<u64>)
    ensures
        r is None <==> v@.len() == 0,
        r is Some ==> v@.contains(r->0) && forall|k: int| 0 <= k < v@.len() ==> v@[k] <= r->0,
{
    if v.len() == 0 {
        return None;
    }
    let mut best: u64 = v[0];
    let mut i: usize = 1;
    while i < v.len()
        invariant
            1 <= i <= v@.len(),
            v@.contains(best),
            forall|k: int| 0 <= k < i ==> v@[k] <= best,
        decreases v@.len() - i,
    {
        if v[i] > best {
            best = v[i];
        }
        i = i + 1;
    }
    Some(best)
}

impl PreCounters {
    /// Retain the cumulative counters of one round of raw readings, to
    /// derive rates in the next sample.
    pub fn from_raw(raw: &RawReadings) -> (r: PreCounters)
        ensures
            r.nic_bytes@.len() == raw.nics@.len(),
            forall|k: int|
                0 <= k < raw.nics@.len() ==> r.nic_bytes@[k].name == raw.nics@[k].name
                    && r.nic_bytes@[k].rx == raw.nics@[k].rx_bytes && r.nic_bytes@[k].tx
                    == raw.nics@[k].tx_bytes,
            r.disk_bytes == raw.disk_io,
    {
        let mut nic_bytes: Vec<NicCounter> = Vec::new();
        let mut i: usize = 0;
        while i < raw.nics.len()
            invariant
                0 <= i <= raw.nics@.len(),
                nic_bytes@.len() == i,
                forall|k: int|
                    0 <= k < i ==> nic_bytes@[k].name == raw.nics@[k].name && nic_bytes@[k].rx
                        == raw.nics@[k].rx_bytes && nic_bytes@[k].tx == raw.nics@[k].tx_bytes,
            decreases raw.nics@.len() - i,
        {
            nic_bytes.push(
                NicCounter {
                    name: raw.nics[i].name.clone(),
                    rx: raw.nics[i].rx_bytes,
                    tx: raw.nics[i].tx_bytes,
                },
            );
            i = i + 1;
        }
        PreCounters { nic_bytes, disk_bytes: raw.disk_io }
    }
}

/// Build one snapshot from raw platform readings. `prev` is the elapsed
/// time in milliseconds since the previous sample together with its
/// retained counters, absent for the very first sample or an on-demand
/// read; without it every rate degrades to zero or to an absent field,
/// never to an error.
pub fn build_snapshot(raw: RawReadings, prev: Option<(u64, &PreCounters)>) -> (r: Snapshot)
    requires
        raw_nics_distinct(raw.nics@),
    ensures
        r.wf(),
        r.cpu.global == raw.cpu_global,
        r.cpu.per_core == raw.per_core,
        r.cpu.cores == raw.per_core@.len(),
        raw.freqs_mhz@.len() == 0 ==> r.cpu.freq_mhz == 0,
        raw.freqs_mhz@.len() > 0 ==> r.cpu.freq_mhz == seq_sum_u64(raw.freqs_mhz@)
            / raw.freqs_mhz@.len() as int,
        r.cpu.temp_centi_c is None <==> raw.temps@.len() == 0,
        r.cpu.temp_centi_c is Some ==> raw.temps@.contains(r.cpu.temp_centi_c->0) && forall|k: int|
            0 <= k < raw.temps@.len() ==> raw.temps@[k] <= r.cpu.temp_centi_c->0,
        sorted_desc(r.cpu.top@),
        r.cpu.top@.len() == if raw.per_core@.len() <= raw.procs@.len() {
            raw.per_core@.len() as int
        } else {
            raw.procs@.len() as int
        },
        exists|s: Seq<CpuProcess>|
            s.to_multiset() == raw.procs@.to_multiset() && sorted_desc(s) && r.cpu.top@
                == s.subrange(0, r.cpu.top@.len() as int),
        r.mem == raw.mem,
        r.disk.parts == raw.parts,
        r.disk.read_bps == disk_read_rate(raw.disk_io, prev),
        r.disk.write_bps == disk_write_rate(raw.disk_io, prev),
        r.net@.len() == raw.nics@.len(),
        forall|k: int|
            0 <= k < raw.nics@.len() ==> nic_out_matches(r.net@[k], raw.nics@[k], prev),
        prev is None ==> r.disk.read_bps is None && r.disk.write_bps is None,
{
    let RawReadings { cpu_global, per_core, freqs_mhz, temps, procs, mem, parts, disk_io, nics } =
        raw;

    // CPU: average frequency, hottest sensor, top processes by usage.
    let freq_mhz = avg_freq_mhz(&freqs_mhz);
    let temp_centi_c = max_temp_centi(&temps);
    let cores = per_core.len();
    let mut top = procs;
    sort_top_desc(&mut top);
    let ghost sorted_all = top@;
    let keep = if cores <= top.len() {
        cores
    } else {
        top.len()
    };
    top.truncate(keep);

    // Disk: aggregate read/write rates only when the platform exposes the
    // counters and the previous sample retained them.
    let mut read_bps: Option<u64> = None;
    let mut write_bps: Option<u64> = None;
    if let Some((cur_read, cur_write)) = disk_io {
        if let Some((elapsed_ms, pc)) = prev {
            if let Some((prev_read, prev_write)) = pc.disk_bytes {
                read_bps = Some(rate_bps(prev_read, cur_read, elapsed_ms));
                write_bps = Some(rate_bps(prev_write, cur_write, elapsed_ms));
            }
        }
    }

    // Network: per-interface rates from the previous counters of the same
    // interface name; zero where none exist.
    let ghost nics_orig = nics@;
    let mut rem = nics;
    let mut net: Vec<NicStats> = Vec::new();
    proof {
        assert(nics_orig.skip(0) =~= nics_orig);
    }
    while rem.len() > 0
        invariant
            net@.len() + rem@.len() == nics_orig.len(),
            rem@ == nics_orig.skip(net@.len() as int),
            forall|k: int| 0 <= k < net@.len() ==> nic_out_matches(net@[k], nics_orig[k], prev),
        decreases rem@.len(),
    {
        let ghost i = net@.len() as int;
        let nic = rem.remove(0);
        proof {
            assert(nic == nics_orig[i]);
            assert(rem@ =~= nics_orig.skip(i + 1));
        }
        let mut rx_bps: u64 = 0;
        let mut tx_bps: u64 = 0;
        if let Some((elapsed_ms, pc)) = prev {
            if let Some((prev_rx, prev_tx)) = find_nic_counter(&pc.nic_bytes, &nic.name) {
                rx_bps = rate_bps(prev_rx, nic.rx_bytes, elapsed_ms);
                tx_bps = rate_bps(prev_tx, nic.tx_bytes, elapsed_ms);
            }
        }
        net.push(
            NicStats {
                name: nic.name,
                ipv4: nic.ipv4,
                mac: nic.mac,
                speed_mbps: nic.speed_mbps,
                rx_bps,
                tx_bps,
                rx_packets: nic.rx_packets,
                tx_packets: nic.tx_packets,
            },
        );
    }

    let r = Snapshot {
        cpu: CpuStats { global: cpu_global, per_core, freq_mhz, cores, temp_centi_c, top },
        mem,
        disk: DiskStats { parts, read_bps, write_bps },
        net,
    };
    proof {
        assert(sorted_all.subrange(0, keep as int) =~= r.cpu.top@);
        assert forall|i: int, j: int|
            0 <= i < j < r.net@.len() implies r.net@[i].name@ != r.net@[j].name@ by {
            assert(nic_out_matches(r.net@[i], nics_orig[i], prev));
            assert(nic_out_matches(r.net@[j], nics_orig[j], prev));
        }
    }
    r
}

} // verus!
