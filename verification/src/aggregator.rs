//! Windowed aggregator: folds sampled snapshots into running accumulators
//! and reduces them to one averaged, smoothed snapshot per emission window.

use crate::ema::ema_step;
use crate::snapshot::CpuProcess;
use crate::snapshot::CpuStats;
use crate::snapshot::DiskStats;
use crate::snapshot::MemStats;
use crate::snapshot::NicStats;
use crate::snapshot::Snapshot;
use crate::topsort::sort_top_desc;
use crate::topsort::sorted_desc;
use vstd::arithmetic::div_mod::lemma_div_by_multiple;
use vstd::arithmetic::div_mod::lemma_div_is_ordered;
use vstd::arithmetic::div_mod::lemma_div_pos_is_pos;
use vstd::prelude::*;

verus! {

/// Size of the emitted top-process list.
pub const TOP_N: usize = 10;

/// Running rx/tx byte-rate sums of one interface, keyed by interface name.
pub struct NetSum {
    pub name: String,
    pub rx_sum: u128,
    pub tx_sum: u128,
}

/// Smoothed CPU usage of one process, keyed by process name. Keying by
/// name rather than by process id misattributes history across restarts
/// that reuse a name; that approximation is accepted by design.
pub struct ProcEma {
    pub name: String,
    pub ema: u64,
}

/// First rx/tx sum entry recorded under `name`.
pub open spec fn net_sum_lookup(s: Seq<NetSum>, name: Seq<char>) -> Option<(u128, u128)>
    decreases s.len(),
{
    if s.len() == 0 {
        None
    } else if s[0].name@ == name {
        Some((s[0].rx_sum, s[0].tx_sum))
    } else {
        net_sum_lookup(s.drop_first(), name)
    }
}

/// First smoothed entry recorded under `name`.
pub open spec fn ema_lookup(s: Seq<ProcEma>, name: Seq<char>) -> Option<u64>
    decreases s.len(),
{
    if s.len() == 0 {
        None
    } else if s[0].name@ == name {
        Some(s[0].ema)
    } else {
        ema_lookup(s.drop_first(), name)
    }
}

/// Folding one sampled interface into the per-interface sums: the entry
/// with the same name gains the sample's rates, a missing entry is seeded
/// with them.
pub open spec fn net_apply_one(s: Seq<NetSum>, nic: NicStats) -> Seq<NetSum>
    decreases s.len(),
{
    if s.len() == 0 {
        seq![NetSum { name: nic.name, rx_sum: nic.rx_bps as u128, tx_sum: nic.tx_bps as u128 }]
    } else if s[0].name@ == nic.name@ {
        seq![
            NetSum {
                name: s[0].name,
                rx_sum: (s[0].rx_sum + nic.rx_bps) as u128,
                tx_sum: (s[0].tx_sum + nic.tx_bps) as u128,
            },
        ] + s.drop_first()
    } else {
        seq![s[0]] + net_apply_one(s.drop_first(), nic)
    }
}

/// Folding every interface of one sample, in order.
pub open spec fn net_apply_all(s: Seq<NetSum>, nics: Seq<NicStats>) -> Seq<NetSum>
    decreases nics.len(),
{
    if nics.len() == 0 {
        s
    } else {
        net_apply_all(net_apply_one(s, nics[0]), nics.drop_first())
    }
}

/// Folding one sampled process into the smoothing map: an existing entry
/// of the same name takes one smoothing step toward the sample, a missing
/// entry is seeded with the sample itself.
pub open spec fn ema_apply_one(s: Seq<ProcEma>, p: CpuProcess) -> Seq<ProcEma>
    decreases s.len(),
{
    if s.len() == 0 {
        seq![ProcEma { name: p.name, ema: p.cpu }]
    } else if s[0].name@ == p.name@ {
        seq![
            ProcEma { name: s[0].name, ema: ema_step(p.cpu as int, s[0].ema as int) as u64 },
        ] + s.drop_first()
    } else {
        seq![s[0]] + ema_apply_one(s.drop_first(), p)
    }
}

/// Folding every process of one sample's top list, in order.
pub open spec fn ema_apply_all(s: Seq<ProcEma>, tops: Seq<CpuProcess>) -> Seq<ProcEma>
    decreases tops.len(),
{
    if tops.len() == 0 {
        s
    } else {
        ema_apply_all(ema_apply_one(s, tops[0]), tops.drop_first())
    }
}

proof fn lemma_net_apply_all_snoc(s: Seq<NetSum>, t: Seq<NicStats>)
    requires
        t.len() >= 1,
    ensures
        net_apply_all(s, t) == net_apply_one(net_apply_all(s, t.drop_last()), t.last()),
    decreases t.len(),
{
    if t.len() == 1 {
        assert(t.drop_last() =~= Seq::<NicStats>::empty());
        assert(t.drop_first() =~= Seq::<NicStats>::empty());
        assert(net_apply_all(s, t) == net_apply_all(net_apply_one(s, t[0]), t.drop_first()));
        assert(net_apply_all(net_apply_one(s, t[0]), t.drop_first()) == net_apply_one(s, t[0]));
        assert(net_apply_all(s, t.drop_last()) == s);
    } else {
        let q = net_apply_one(s, t[0]);
        lemma_net_apply_all_snoc(q, t.drop_first());
        assert(net_apply_all(s, t) == net_apply_all(q, t.drop_first()));
        assert(t.drop_first().drop_last() =~= t.drop_last().drop_first());
        assert(t.drop_first().last() == t.last());
        assert(t.drop_last()[0] == t[0]);
        assert(net_apply_all(s, t.drop_last()) == net_apply_all(
            net_apply_one(s, t.drop_last()[0]),
            t.drop_last().drop_first(),
        ));
    }
}

proof fn lemma_ema_apply_all_snoc(s: Seq<ProcEma>, t: Seq<CpuProcess>)
    requires
        t.len() >= 1,
    ensures
        ema_apply_all(s, t) == ema_apply_one(ema_apply_all(s, t.drop_last()), t.last()),
    decreases t.len(),
{
    if t.len() == 1 {
        assert(t.drop_last() =~= Seq::<CpuProcess>::empty());
        assert(t.drop_first() =~= Seq::<CpuProcess>::empty());
        assert(ema_apply_all(s, t) == ema_apply_all(ema_apply_one(s, t[0]), t.drop_first()));
        assert(ema_apply_all(ema_apply_one(s, t[0]), t.drop_first()) == ema_apply_one(s, t[0]));
        assert(ema_apply_all(s, t.drop_last()) == s);
    } else {
        let q = ema_apply_one(s, t[0]);
        lemma_ema_apply_all_snoc(q, t.drop_first());
        assert(ema_apply_all(s, t) == ema_apply_all(q, t.drop_first()));
        assert(t.drop_first().drop_last() =~= t.drop_last().drop_first());
        assert(t.drop_first().last() == t.last());
        assert(t.drop_last()[0] == t[0]);
        assert(ema_apply_all(s, t.drop_last()) == ema_apply_all(
            ema_apply_one(s, t.drop_last()[0]),
            t.drop_last().drop_first(),
        ));
    }
}

proof fn lemma_net_apply_one_found(s: Seq<NetSum>, nic: NicStats, idx: int)
    requires
        0 <= idx < s.len(),
        s[idx].name@ == nic.name@,
        forall|k: int| 0 <= k < idx ==> s[k].name@ != nic.name@,
    ensures
        net_apply_one(s, nic) == s.update(
            idx,
            NetSum {
                name: s[idx].name,
                rx_sum: (s[idx].rx_sum + nic.rx_bps) as u128,
                tx_sum: (s[idx].tx_sum + nic.tx_bps) as u128,
            },
        ),
    decreases idx,
{
    if idx == 0 {
        assert(net_apply_one(s, nic) =~= s.update(
            0,
            NetSum {
                name: s[0].name,
                rx_sum: (s[0].rx_sum + nic.rx_bps) as u128,
                tx_sum: (s[0].tx_sum + nic.tx_bps) as u128,
            },
        ));
    } else {
        lemma_net_apply_one_found(s.drop_first(), nic, idx - 1);
        assert(s.drop_first()[idx - 1] == s[idx]);
        assert(net_apply_one(s, nic) =~= s.update(
            idx,
            NetSum {
                name: s[idx].name,
                rx_sum: (s[idx].rx_sum + nic.rx_bps) as u128,
                tx_sum: (s[idx].tx_sum + nic.tx_bps) as u128,
            },
        ));
    }
}

proof fn lemma_net_apply_one_absent(s: Seq<NetSum>, nic: NicStats)
    requires
        forall|k: int| 0 <= k < s.len() ==> s[k].name@ != nic.name@,
    ensures
        net_apply_one(s, nic) == s.push(
            NetSum { name: nic.name, rx_sum: nic.rx_bps as u128, tx_sum: nic.tx_bps as u128 },
        ),
    decreases s.len(),
{
    if s.len() == 0 {
        assert(net_apply_one(s, nic) =~= s.push(
            NetSum { name: nic.name, rx_sum: nic.rx_bps as u128, tx_sum: nic.tx_bps as u128 },
        ));
    } else {
        lemma_net_apply_one_absent(s.drop_first(), nic);
        assert(net_apply_one(s, nic) =~= s.push(
            NetSum { name: nic.name, rx_sum: nic.rx_bps as u128, tx_sum: nic.tx_bps as u128 },
        ));
    }
}

proof fn lemma_ema_apply_one_found(s: Seq<ProcEma>, p: CpuProcess, idx: int)
    requires
        0 <= idx < s.len(),
        s[idx].name@ == p.name@,
        forall|k: int| 0 <= k < idx ==> s[k].name@ != p.name@,
    ensures
        ema_apply_one(s, p) == s.update(
            idx,
            ProcEma { name: s[idx].name, ema: ema_step(p.cpu as int, s[idx].ema as int) as u64 },
        ),
    decreases idx,
{
    if idx == 0 {
        assert(ema_apply_one(s, p) =~= s.update(
            0,
            ProcEma { name: s[0].name, ema: ema_step(p.cpu as int, s[0].ema as int) as u64 },
        ));
    } else {
        lemma_ema_apply_one_found(s.drop_first(), p, idx - 1);
        assert(s.drop_first()[idx - 1] == s[idx]);
        assert(ema_apply_one(s, p) =~= s.update(
            idx,
            ProcEma { name: s[idx].name, ema: ema_step(p.cpu as int, s[idx].ema as int) as u64 },
        ));
    }
}

proof fn lemma_ema_apply_one_absent(s: Seq<ProcEma>, p: CpuProcess)
    requires
        forall|k: int| 0 <= k < s.len() ==> s[k].name@ != p.name@,
    ensures
        ema_apply_one(s, p) == s.push(ProcEma { name: p.name, ema: p.cpu }),
    decreases s.len(),
{
    if s.len() == 0 {
        assert(ema_apply_one(s, p) =~= s.push(ProcEma { name: p.name, ema: p.cpu }));
    } else {
        lemma_ema_apply_one_absent(s.drop_first(), p);
        assert(ema_apply_one(s, p) =~= s.push(ProcEma { name: p.name, ema: p.cpu }));
    }
}

proof fn lemma_net_lookup_apply_one_other(s: Seq<NetSum>, nic: NicStats, name: Seq<char>)
    requires
        name != nic.name@,
    ensures
        net_sum_lookup(net_apply_one(s, nic), name) == net_sum_lookup(s, name),
    decreases s.len(),
{
    let r = net_apply_one(s, nic);
    if s.len() == 0 {
        assert(r[0].name@ == nic.name@);
        assert(net_sum_lookup(r, name) == net_sum_lookup(r.drop_first(), name));
        assert(r.drop_first() =~= Seq::<NetSum>::empty());
        assert(net_sum_lookup(r.drop_first(), name) is None);
    } else if s[0].name@ == nic.name@ {
        assert(r[0].name@ == s[0].name@);
        assert(net_sum_lookup(r, name) == net_sum_lookup(r.drop_first(), name));
        assert(r.drop_first() =~= s.drop_first());
        assert(net_sum_lookup(s, name) == net_sum_lookup(s.drop_first(), name));
    } else {
        lemma_net_lookup_apply_one_other(s.drop_first(), nic, name);
        assert(r[0] == s[0]);
        assert(r.drop_first() =~= net_apply_one(s.drop_first(), nic));
        if s[0].name@ == name {
            assert(net_sum_lookup(r, name) == Some((r[0].rx_sum, r[0].tx_sum)));
        } else {
            assert(net_sum_lookup(r, name) == net_sum_lookup(r.drop_first(), name));
            assert(net_sum_lookup(s, name) == net_sum_lookup(s.drop_first(), name));
        }
    }
}

/// An interface name that a sample does not carry keeps exactly the sums
/// it had: folding the sample touches no other interface's entry, and
/// never merges one interface's counters into another's.
pub proof fn lemma_net_absent_name_unchanged(s: Seq<NetSum>, nics: Seq<NicStats>, name: Seq<char>)
    requires
        forall|j: int| 0 <= j < nics.len() ==> nics[j].name@ != name,
    ensures
        net_sum_lookup(net_apply_all(s, nics), name) == net_sum_lookup(s, name),
    decreases nics.len(),
{
    if nics.len() > 0 {
        lemma_net_lookup_apply_one_other(s, nics[0], name);
        lemma_net_absent_name_unchanged(net_apply_one(s, nics[0]), nics.drop_first(), name);
    }
}

/// The entry recorded under one sampled interface's own name after one
/// fold step: its previous sums plus that interface's rates, or a fresh
/// entry seeded with them.
pub open spec fn net_sums_after(prior: Option<(u128, u128)>, nic: NicStats) -> (u128, u128) {
    match prior {
        Some(v) => (((v.0 + nic.rx_bps) as u128), ((v.1 + nic.tx_bps) as u128)),
        None => (nic.rx_bps as u128, nic.tx_bps as u128),
    }
}

proof fn lemma_net_lookup_apply_one_same(s: Seq<NetSum>, nic: NicStats)
    ensures
        net_sum_lookup(net_apply_one(s, nic), nic.name@) == Some(
            net_sums_after(net_sum_lookup(s, nic.name@), nic),
        ),
    decreases s.len(),
{
    let r = net_apply_one(s, nic);
    if s.len() == 0 {
        assert(net_sum_lookup(r, nic.name@) == Some((nic.rx_bps as u128, nic.tx_bps as u128)));
    } else if s[0].name@ == nic.name@ {
        assert(net_sum_lookup(r, nic.name@) == Some((r[0].rx_sum, r[0].tx_sum)));
    } else {
        lemma_net_lookup_apply_one_same(s.drop_first(), nic);
        assert(r[0] == s[0]);
        assert(r.drop_first() =~= net_apply_one(s.drop_first(), nic));
        assert(net_sum_lookup(r, nic.name@) == net_sum_lookup(r.drop_first(), nic.name@));
        assert(net_sum_lookup(s, nic.name@) == net_sum_lookup(s.drop_first(), nic.name@));
    }
}

/// An interface that a sample does carry accumulates exactly its own
/// rates: after folding a sample whose interface names are distinct, the
/// entry under that interface's name holds its previous sums plus that
/// interface's sampled rates, no other interface's.
pub proof fn lemma_net_present_name_accumulates(s: Seq<NetSum>, nics: Seq<NicStats>, j: int)
    requires
        0 <= j < nics.len(),
        forall|a: int, b: int| 0 <= a < b < nics.len() ==> nics[a].name@ != nics[b].name@,
    ensures
        net_sum_lookup(net_apply_all(s, nics), nics[j].name@) == Some(
            net_sums_after(net_sum_lookup(s, nics[j].name@), nics[j]),
        ),
    decreases nics.len(),
{
    if j == 0 {
        lemma_net_lookup_apply_one_same(s, nics[0]);
        lemma_net_absent_name_unchanged(
            net_apply_one(s, nics[0]),
            nics.drop_first(),
            nics[0].name@,
        );
    } else {
        lemma_net_lookup_apply_one_other(s, nics[0], nics[j].name@);
        lemma_net_present_name_accumulates(net_apply_one(s, nics[0]), nics.drop_first(), j - 1);
        assert(nics.drop_first()[j - 1] == nics[j]);
    }
}

/// The smoothing entry recorded under one sampled process's own name
/// after one fold step: one smoothing step toward the sample, or a fresh
/// entry seeded with it.
pub open spec fn ema_after(prior: Option<u64>, p: CpuProcess) -> u64 {
    match prior {
        Some(e) => ema_step(p.cpu as int, e as int) as u64,
        None => p.cpu,
    }
}

proof fn lemma_ema_lookup_apply_one_other(s: Seq<ProcEma>, p: CpuProcess, name: Seq<char>)
    requires
        name != p.name@,
    ensures
        ema_lookup(ema_apply_one(s, p), name) == ema_lookup(s, name),
    decreases s.len(),
{
    let r = ema_apply_one(s, p);
    if s.len() == 0 {
        assert(r[0].name@ == p.name@);
        assert(ema_lookup(r, name) == ema_lookup(r.drop_first(), name));
        assert(r.drop_first() =~= Seq::<ProcEma>::empty());
        assert(ema_lookup(r.drop_first(), name) is None);
    } else if s[0].name@ == p.name@ {
        assert(r[0].name@ == s[0].name@);
        assert(ema_lookup(r, name) == ema_lookup(r.drop_first(), name));
        assert(r.drop_first() =~= s.drop_first());
        assert(ema_lookup(s, name) == ema_lookup(s.drop_first(), name));
    } else {
        lemma_ema_lookup_apply_one_other(s.drop_first(), p, name);
        assert(r[0] == s[0]);
        assert(r.drop_first() =~= ema_apply_one(s.drop_first(), p));
        if s[0].name@ == name {
            assert(ema_lookup(r, name) == Some(r[0].ema));
        } else {
            assert(ema_lookup(r, name) == ema_lookup(r.drop_first(), name));
            assert(ema_lookup(s, name) == ema_lookup(s.drop_first(), name));
        }
    }
}

proof fn lemma_ema_lookup_apply_one_same(s: Seq<ProcEma>, p: CpuProcess)
    ensures
        ema_lookup(ema_apply_one(s, p), p.name@) == Some(ema_after(ema_lookup(s, p.name@), p)),
    decreases s.len(),
{
    let r = ema_apply_one(s, p);
    if s.len() == 0 {
        assert(ema_lookup(r, p.name@) == Some(p.cpu));
    } else if s[0].name@ == p.name@ {
        assert(ema_lookup(r, p.name@) == Some(r[0].ema));
    } else {
        lemma_ema_lookup_apply_one_same(s.drop_first(), p);
        assert(r[0] == s[0]);
        assert(r.drop_first() =~= ema_apply_one(s.drop_first(), p));
        assert(ema_lookup(r, p.name@) == ema_lookup(r.drop_first(), p.name@));
        assert(ema_lookup(s, p.name@) == ema_lookup(s.drop_first(), p.name@));
    }
}

/// A process name that a sample's top list does not carry keeps exactly
/// the smoothed entry it had: smoothing history survives samples that do
/// not mention the process, and is never reassigned across names.
pub proof fn lemma_ema_absent_name_unchanged(s: Seq<ProcEma>, tops: Seq<CpuProcess>, name: Seq<char>)
    requires
        forall|j: int| 0 <= j < tops.len() ==> tops[j].name@ != name,
    ensures
        ema_lookup(ema_apply_all(s, tops), name) == ema_lookup(s, name),
    decreases tops.len(),
{
    if tops.len() > 0 {
        lemma_ema_lookup_apply_one_other(s, tops[0], name);
        lemma_ema_absent_name_unchanged(ema_apply_one(s, tops[0]), tops.drop_first(), name);
    }
}

/// A process that a sample's top list does carry takes exactly one
/// smoothing step toward its sampled usage — or is seeded with it — when
/// the list names each process once. Chained over a run of samples that
/// all carry the value `x`, the entry follows `ema_iter` and so converges
/// to within the smoothing resolution of `x`.
pub proof fn lemma_ema_present_name_steps(s: Seq<ProcEma>, tops: Seq<CpuProcess>, j: int)
    requires
        0 <= j < tops.len(),
        forall|a: int, b: int| 0 <= a < b < tops.len() ==> tops[a].name@ != tops[b].name@,
    ensures
        ema_lookup(ema_apply_all(s, tops), tops[j].name@) == Some(
            ema_after(ema_lookup(s, tops[j].name@), tops[j]),
        ),
    decreases tops.len(),
{
    if j == 0 {
        lemma_ema_lookup_apply_one_same(s, tops[0]);
        lemma_ema_absent_name_unchanged(
            ema_apply_one(s, tops[0]),
            tops.drop_first(),
            tops[0].name@,
        );
    } else {
        lemma_ema_lookup_apply_one_other(s, tops[0], tops[j].name@);
        lemma_ema_present_name_steps(ema_apply_one(s, tops[0]), tops.drop_first(), j - 1);
        assert(tops.drop_first()[j - 1] == tops[j]);
    }
}

/// Per-window accumulator of the aggregator: a sample count, running sums
/// of the scalar metrics, per-interface rate sums, the per-process
/// smoothing map, and the last folded snapshot as the structural base of
/// the next emission.
pub struct Accum {
    pub count: u64,
    pub cpu_global_sum: u128,
    pub cpu_per_core_sum: Vec<u128>,
    pub mem_used_sum: u128,
    pub mem_avail_sum: u128,
    pub disk_read_sum: u128,
    pub disk_write_sum: u128,
    pub have_disk_io: bool,
    pub net_sum: Vec<NetSum>,
    pub proc_ema: Vec<ProcEma>,
    pub last_snap: Option<Snapshot>,
}

impl Accum {
    /// Accumulator invariant: an empty window holds nothing, every running
    /// sum is bounded by the fold count, the keyed entries are keyed once,
    /// and the per-core sums match the shape of the retained snapshot.
    pub open spec fn wf(self) -> bool {
        &&& (self.count == 0 <==> self.last_snap is None)
        &&& (self.count == 0 ==> self.cpu_global_sum == 0 && self.cpu_per_core_sum@.len() == 0
            && self.mem_used_sum == 0 && self.mem_avail_sum == 0 && self.disk_read_sum == 0
            && self.disk_write_sum == 0 && !self.have_disk_io && self.net_sum@.len() == 0)
        &&& self.cpu_global_sum <= self.count * u64::MAX
        &&& self.mem_used_sum <= self.count * u64::MAX
        &&& self.mem_avail_sum <= self.count * u64::MAX
        &&& self.disk_read_sum <= self.count * u64::MAX
        &&& self.disk_write_sum <= self.count * u64::MAX
        &&& forall|i: int|
            0 <= i < self.cpu_per_core_sum@.len() ==> self.cpu_per_core_sum@[i] <= self.count
                * u64::MAX
        &&& forall|i: int|
            0 <= i < self.net_sum@.len() ==> self.net_sum@[i].rx_sum <= self.count * u64::MAX
                && self.net_sum@[i].tx_sum <= self.count * u64::MAX
        &&& forall|i: int, j: int|
            0 <= i < j < self.net_sum@.len() ==> self.net_sum@[i].name@ != self.net_sum@[j].name@
        &&& forall|i: int, j: int|
            0 <= i < j < self.proc_ema@.len() ==> self.proc_ema@[i].name@
                != self.proc_ema@[j].name@
        &&& (self.last_snap is Some ==> self.cpu_per_core_sum@.len()
            == self.last_snap->0.cpu.per_core@.len())
    }

    /// A fresh accumulator: an empty window with no smoothing history.
    pub fn new() -> (r: Accum)
        ensures
            r.wf(),
            r.count == 0,
            r.proc_ema@.len() == 0,
            r.net_sum@.len() == 0,
            r.last_snap is None,
    {
        Accum {
            count: 0,
            cpu_global_sum: 0,
            cpu_per_core_sum: Vec::new(),
            mem_used_sum: 0,
            mem_avail_sum: 0,
            disk_read_sum: 0,
            disk_write_sum: 0,
            have_disk_io: false,
            net_sum: Vec::new(),
            proc_ema: Vec::new(),
            last_snap: None,
        }
    }
}

/// Index of the first per-interface sum entry recorded under `name`.
fn find_net_index(s: &Vec<NetSum>, name: &String) -> (r: Option<usize>)
    ensures
        match r {
            Some(i) => 0 <= i < s@.len() && s@[i as int].name@ == name@ && forall|k: int|
                0 <= k < i ==> s@[k].name@ != name@,
            None => forall|k: int| 0 <= k < s@.len() ==> s@[k].name@ != name@,
        },
{
    let mut i: usize = 0;
    while i < s.len()
        invariant
            0 <= i <= s@.len(),
            forall|k: int| 0 <= k < i ==> s@[k].name@ != name@,
        decreases s@.len() - i,
    {
        if s[i].name == *name {
            return Some(i);
        }
        i = i + 1;
    }
    None
}

/// Index of the first smoothing entry recorded under `name`.
fn find_ema_index(s: &Vec<ProcEma>, name: &String) -> (r: Option<usize>)
    ensures
        match r {
            Some(i) => 0 <= i < s@.len() && s@[i as int].name@ == name@ && forall|k: int|
                0 <= k < i ==> s@[k].name@ != name@,
            None => forall|k: int| 0 <= k < s@.len() ==> s@[k].name@ != name@,
        },
{
    let mut i: usize = 0;
    while i < s.len()
        invariant
            0 <= i <= s@.len(),
            forall|k: int| 0 <= k < i ==> s@[k].name@ != name@,
        decreases s@.len() - i,
    {
        if s[i].name == *name {
            return Some(i);
        }
        i = i + 1;
    }
    None
}

impl Accum {
    /// Fold one sampled snapshot into the window: count it, add every
    /// scalar to its running sum, resize the per-core sums to the sample's
    /// core count before accumulating, fold the per-interface rates and
    /// the per-process smoothing map, and retain the sample as the
    /// structural base of the next emission.
    #[verifier::loop_isolation(false)]
    pub fn fold(&mut self, snap: Snapshot)
        requires
            old(self).wf(),
            old(self).count < u64::MAX,
            snap.wf(),
        ensures
            final (self).wf(),
            final (self).count == old(self).count + 1,
            final (self).cpu_global_sum == old(self).cpu_global_sum + snap.cpu.global,
            old(self).cpu_per_core_sum@.len() == snap.cpu.per_core@.len() ==> (forall|i: int|
                0 <= i < snap.cpu.per_core@.len() ==> final (self).cpu_per_core_sum@[i]
                    == old(self).cpu_per_core_sum@[i] + snap.cpu.per_core@[i]),
            old(self).cpu_per_core_sum@.len() != snap.cpu.per_core@.len() ==> (forall|i: int|
                0 <= i < snap.cpu.per_core@.len() ==> final (self).cpu_per_core_sum@[i]
                    == snap.cpu.per_core@[i]),
            final (self).cpu_per_core_sum@.len() == snap.cpu.per_core@.len(),
            final (self).mem_used_sum == old(self).mem_used_sum + snap.mem.used,
            final (self).mem_avail_sum == old(self).mem_avail_sum + snap.mem.available,
            snap.disk.read_bps is Some && snap.disk.write_bps is Some ==> {
                &&& final (self).disk_read_sum == old(self).disk_read_sum
                    + snap.disk.read_bps->0
                &&& final (self).disk_write_sum == old(self).disk_write_sum
                    + snap.disk.write_bps->0
                &&& final (self).have_disk_io
            },
            !(snap.disk.read_bps is Some && snap.disk.write_bps is Some) ==> {
                &&& final (self).disk_read_sum == old(self).disk_read_sum
                &&& final (self).disk_write_sum == old(self).disk_write_sum
                &&& final (self).have_disk_io == old(self).have_disk_io
            },
            final (self).net_sum@ == net_apply_all(old(self).net_sum@, snap.net@),
            final (self).proc_ema@ == ema_apply_all(old(self).proc_ema@, snap.cpu.top@),
            final (self).last_snap == Some(snap),
    {
        let ghost oc = old(self).count as int;
        proof {
            assert(oc * u64::MAX + u64::MAX == (oc + 1) * (u64::MAX as int)) by (nonlinear_arith);
            assert((oc + 1) * (u64::MAX as int) <= u128::MAX) by (nonlinear_arith)
                requires
                    0 <= oc + 1 <= u64::MAX as int + 1,
            ;
            assert(oc * u64::MAX <= (oc + 1) * (u64::MAX as int)) by (nonlinear_arith)
                requires
                    oc >= 0,
            ;
            assert(0 <= oc * u64::MAX) by (nonlinear_arith)
                requires
                    oc >= 0,
            ;
        }
        self.count = self.count + 1;
        self.cpu_global_sum = self.cpu_global_sum + snap.cpu.global as u128;
        self.mem_used_sum = self.mem_used_sum + snap.mem.used as u128;
        self.mem_avail_sum = self.mem_avail_sum + snap.mem.available as u128;

        // Per-core sums: match the sample's core count before accumulating,
        // restarting from the sample itself when the shape changed.
        let same_shape = self.cpu_per_core_sum.len() == snap.cpu.per_core.len();
        let mut fresh: Vec<u128> = Vec::new();
        let mut i: usize = 0;
        while i < snap.cpu.per_core.len()
            invariant
                0 <= i <= snap.cpu.per_core@.len(),
                fresh@.len() == i,
                same_shape ==> forall|k: int|
                    0 <= k < i ==> fresh@[k] == old(self).cpu_per_core_sum@[k]
                        + snap.cpu.per_core@[k],
                !same_shape ==> forall|k: int| 0 <= k < i ==> fresh@[k] == snap.cpu.per_core@[k],
            decreases snap.cpu.per_core@.len() - i,
        {
            if same_shape {
                fresh.push(self.cpu_per_core_sum[i] + snap.cpu.per_core[i] as u128);
            } else {
                fresh.push(snap.cpu.per_core[i] as u128);
            }
            i = i + 1;
        }
        self.cpu_per_core_sum = fresh;

        // Disk rate sums: accumulate only a sample that carries both rates,
        // and remember that disk-rate averaging activated this window.
        if snap.disk.read_bps.is_some() && snap.disk.write_bps.is_some() {
            let r = snap.disk.read_bps.unwrap();
            let w = snap.disk.write_bps.unwrap();
            self.disk_read_sum = self.disk_read_sum + r as u128;
            self.disk_write_sum = self.disk_write_sum + w as u128;
            self.have_disk_io = true;
        }

        // Per-interface rate sums.
        let ghost net_orig = old(self).net_sum@;
        let mut sums: Vec<NetSum> = Vec::new();
        core::mem::swap(&mut self.net_sum, &mut sums);
        let mut j: usize = 0;
        proof {
            assert(snap.net@.subrange(0, 0) =~= Seq::<NicStats>::empty());
        }
        while j < snap.net.len()
            invariant
                0 <= j <= snap.net@.len(),
                sums@ == net_apply_all(net_orig, snap.net@.subrange(0, j as int)),
                forall|i: int, k: int|
                    0 <= i < k < sums@.len() ==> sums@[i].name@ != sums@[k].name@,
                forall|i: int|
                    0 <= i < sums@.len() ==> sums@[i].rx_sum <= (oc + 1) * u64::MAX
                        && sums@[i].tx_sum <= (oc + 1) * u64::MAX,
                forall|i: int|
                    0 <= i < sums@.len() ==> (sums@[i].rx_sum <= oc * u64::MAX
                        && sums@[i].tx_sum <= oc * u64::MAX) || (exists|j2: int|
                        0 <= j2 < j as int && sums@[i].name@ == snap.net@[j2].name@),
            decreases snap.net@.len() - j,
        {
            let ghost pre = sums@;
            let nic_name = &snap.net[j].name;
            let rx = snap.net[j].rx_bps;
            let tx = snap.net[j].tx_bps;
            match find_net_index(&sums, nic_name) {
                Some(idx) => {
                    let old_rx = sums[idx].rx_sum;
                    let old_tx = sums[idx].tx_sum;
                    let nm = sums[idx].name.clone();
                    proof {
                        // The entry found under this name was not updated
                        // earlier in this fold: the sample names each
                        // interface once.
                        if exists|j2: int|
                            0 <= j2 < j as int && pre[idx as int].name@ == snap.net@[j2].name@ {
                            let j2 = choose|j2: int|
                                0 <= j2 < j as int && pre[idx as int].name@
                                    == snap.net@[j2].name@;
                            assert(snap.net@[j2].name@ == snap.net@[j as int].name@);
                            assert(false);
                        }
                        assert(pre[idx as int].rx_sum <= oc * u64::MAX);
                        assert(pre[idx as int].tx_sum <= oc * u64::MAX);
                    }
                    sums.set(
                        idx,
                        NetSum {
                            name: nm,
                            rx_sum: old_rx + rx as u128,
                            tx_sum: old_tx + tx as u128,
                        },
                    );
                    proof {
                        lemma_net_apply_one_found(pre, snap.net@[j as int], idx as int);
                        assert(sums@ =~= net_apply_one(pre, snap.net@[j as int]));
                    }
                },
                None => {
                    sums.push(
                        NetSum { name: nic_name.clone(), rx_sum: rx as u128, tx_sum: tx as u128 },
                    );
                    proof {
                        lemma_net_apply_one_absent(pre, snap.net@[j as int]);
                        assert(sums@ =~= net_apply_one(pre, snap.net@[j as int]));
                        assert(u64::MAX as int <= (oc + 1) * u64::MAX) by (nonlinear_arith)
                            requires
                                oc >= 0,
                        ;
                    }
                },
            }
            proof {
                lemma_net_apply_all_snoc(net_orig, snap.net@.subrange(0, j as int + 1));
                assert(snap.net@.subrange(0, j as int + 1).drop_last() =~= snap.net@.subrange(
                    0,
                    j as int,
                ));
                assert(snap.net@.subrange(0, j as int + 1).last() == snap.net@[j as int]);
            }
            j = j + 1;
        }
        proof {
            assert(snap.net@.subrange(0, snap.net@.len() as int) =~= snap.net@);
        }
        self.net_sum = sums;

        // Per-process smoothing map.
        let ghost ema_orig = old(self).proc_ema@;
        let mut entries: Vec<ProcEma> = Vec::new();
        core::mem::swap(&mut self.proc_ema, &mut entries);
        let mut k: usize = 0;
        proof {
            assert(snap.cpu.top@.subrange(0, 0) =~= Seq::<CpuProcess>::empty());
        }
        while k < snap.cpu.top.len()
            invariant
                0 <= k <= snap.cpu.top@.len(),
                entries@ == ema_apply_all(ema_orig, snap.cpu.top@.subrange(0, k as int)),
                forall|i: int, m: int|
                    0 <= i < m < entries@.len() ==> entries@[i].name@ != entries@[m].name@,
            decreases snap.cpu.top@.len() - k,
        {
            let ghost pre = entries@;
            let p_name = &snap.cpu.top[k].name;
            let p_cpu = snap.cpu.top[k].cpu;
            match find_ema_index(&entries, p_name) {
                Some(idx) => {
                    let old_ema = entries[idx].ema;
                    let nm = entries[idx].name.clone();
                    let stepped = crate::ema::ema_update(p_cpu, old_ema);
                    entries.set(idx, ProcEma { name: nm, ema: stepped });
                    proof {
                        lemma_ema_apply_one_found(pre, snap.cpu.top@[k as int], idx as int);
                        assert(entries@ =~= ema_apply_one(pre, snap.cpu.top@[k as int]));
                    }
                },
                None => {
                    entries.push(ProcEma { name: p_name.clone(), ema: p_cpu });
                    proof {
                        lemma_ema_apply_one_absent(pre, snap.cpu.top@[k as int]);
                        assert(entries@ =~= ema_apply_one(pre, snap.cpu.top@[k as int]));
                    }
                },
            }
            proof {
                lemma_ema_apply_all_snoc(ema_orig, snap.cpu.top@.subrange(0, k as int + 1));
                assert(snap.cpu.top@.subrange(0, k as int + 1).drop_last()
                    =~= snap.cpu.top@.subrange(0, k as int));
                assert(snap.cpu.top@.subrange(0, k as int + 1).last() == snap.cpu.top@[k as int]);
            }
            k = k + 1;
        }
        proof {
            assert(snap.cpu.top@.subrange(0, snap.cpu.top@.len() as int) =~= snap.cpu.top@);
        }
        self.proc_ema = entries;

        self.last_snap = Some(snap);
    }
}

/// One emitted top-list entry: the raw process with its CPU usage replaced
/// by its smoothed entry, falling back to the raw value where no smoothing
/// history exists.
pub open spec fn smooth_entry(p: CpuProcess, ema: Seq<ProcEma>) -> CpuProcess {
    CpuProcess {
        name: p.name,
        cpu: match ema_lookup(ema, p.name@) {
            Some(e) => e,
            None => p.cpu,
        },
        mem: p.mem,
    }
}

/// The base snapshot's top list mapped through the smoothing map.
pub open spec fn smoothed_seq(tops: Seq<CpuProcess>, ema: Seq<ProcEma>) -> Seq<CpuProcess> {
    Seq::new(tops.len(), |i: int| smooth_entry(tops[i], ema))
}

/// Look up the accumulated rx/tx sums of the interface called `name`.
fn lookup_net_sum(s: &Vec<NetSum>, name: &String) -> (r: Option<(u128, u128)>)
    ensures
        r == net_sum_lookup(s@, name@),
{
    let mut i: usize = 0;
    proof {
        assert(s@.skip(0) =~= s@);
    }
    while i < s.len()
        invariant
            0 <= i <= s@.len(),
            net_sum_lookup(s@, name@) == net_sum_lookup(s@.skip(i as int), name@),
        decreases s@.len() - i,
    {
        proof {
            assert(s@.skip(i as int)[0] == s@[i as int]);
            assert(s@.skip(i as int).drop_first() =~= s@.skip(i as int + 1));
        }
        if s[i].name == *name {
            return Some((s[i].rx_sum, s[i].tx_sum));
        }
        i = i + 1;
    }
    proof {
        assert(s@.skip(i as int).len() == 0);
    }
    None
}

/// Look up the smoothed CPU usage recorded under `name`.
fn lookup_ema(s: &Vec<ProcEma>, name: &String) -> (r: Option<u64>)
    ensures
        r == ema_lookup(s@, name@),
{
    let mut i: usize = 0;
    proof {
        assert(s@.skip(0) =~= s@);
    }
    while i < s.len()
        invariant
            0 <= i <= s@.len(),
            ema_lookup(s@, name@) == ema_lookup(s@.skip(i as int), name@),
        decreases s@.len() - i,
    {
        proof {
            assert(s@.skip(i as int)[0] == s@[i as int]);
            assert(s@.skip(i as int).drop_first() =~= s@.skip(i as int + 1));
        }
        if s[i].name == *name {
            return Some(s[i].ema);
        }
        i = i + 1;
    }
    proof {
        assert(s@.skip(i as int).len() == 0);
    }
    None
}

/// A successful lookup hands back the sums of one recorded entry.
proof fn lemma_net_lookup_is_entry(s: Seq<NetSum>, name: Seq<char>)
    requires
        net_sum_lookup(s, name) is Some,
    ensures
        ({
            let v = net_sum_lookup(s, name)->0;
            exists|i: int| 0 <= i < s.len() && s[i].rx_sum == v.0 && s[i].tx_sum == v.1
        }),
    decreases s.len(),
{
    let v = net_sum_lookup(s, name)->0;
    if s[0].name@ == name {
        assert(s[0].rx_sum == v.0 && s[0].tx_sum == v.1);
    } else {
        lemma_net_lookup_is_entry(s.drop_first(), name);
        let w = net_sum_lookup(s.drop_first(), name)->0;
        let i = choose|i: int|
            0 <= i < s.drop_first().len() && s.drop_first()[i].rx_sum == w.0
                && s.drop_first()[i].tx_sum == w.1;
        assert(s[i + 1].rx_sum == v.0 && s[i + 1].tx_sum == v.1);
    }
}

/// Summing law: a window whose samples all carry the same scalar value
/// sums to the count times that value.
pub proof fn lemma_sum_of_constant(s: Seq<u64>, v: u64)
    requires
        forall|i: int| 0 <= i < s.len() ==> s[i] == v,
    ensures
        crate::builder::seq_sum_u64(s) == s.len() * v,
    decreases s.len(),
{
    if s.len() == 0 {
        assert(s.len() * v == 0) by (nonlinear_arith)
            requires
                s.len() == 0,
        ;
    } else {
        lemma_sum_of_constant(s.drop_last(), v);
        assert((s.len() - 1) * v + v == s.len() * v) by (nonlinear_arith);
    }
}

/// Folding one more sample extends the window sum by its value.
pub proof fn lemma_sum_push(s: Seq<u64>, v: u64)
    ensures
        crate::builder::seq_sum_u64(s.push(v)) == crate::builder::seq_sum_u64(s) + v,
{
    assert(s.push(v).drop_last() =~= s);
    assert(s.push(v).last() == v);
}

/// Averaging law: a window of `n` folds that all carried the scalar value
/// `v` emits exactly `v` — the emitted average `(n * v) / n` loses nothing
/// to integer division. Together with the fold and emit contracts this
/// pins the emitted average of a constant window to the constant itself.
pub proof fn lemma_average_of_constant(n: int, v: u64)
    requires
        1 <= n,
    ensures
        (n * v) / n == v,
{
    assert(n * v == v * n) by (nonlinear_arith);
    lemma_div_by_multiple(v as int, n);
}

/// A running sum bounded by its fold count averages to a value that fits
/// the emitted field.
proof fn lemma_avg_fits(sum: int, cnt: int)
    requires
        0 <= sum,
        sum <= cnt * u64::MAX,
        1 <= cnt,
    ensures
        0 <= sum / cnt <= u64::MAX,
{
    lemma_div_pos_is_pos(sum, cnt);
    lemma_div_is_ordered(sum, cnt * u64::MAX, cnt);
    assert(cnt * u64::MAX == u64::MAX * cnt) by (nonlinear_arith);
    lemma_div_by_multiple(u64::MAX as int, cnt);
}

impl Accum {
    /// Reduce the window to one emitted snapshot, then reset the window.
    ///
    /// An empty window (no fold since the last emission) emits nothing and
    /// changes nothing: no division by zero, no stale re-publish. A
    /// non-empty window takes the last folded snapshot as structural base,
    /// overwrites its scalar fields with the window averages, each
    /// interface's rates with that interface's averaged sums, and rebuilds
    /// its top list smoothed, sorted by smoothed usage descending and cut
    /// to `TOP_N` entries. The reset clears the count, the sums and the
    /// per-interface map, but keeps the smoothing map: smoothing persists
    /// across windows by design.
    #[verifier::loop_isolation(false)]
    pub fn emit(&mut self) -> (r: Option<Snapshot>)
        requires
            old(self).wf(),
        ensures
            final (self).wf(),
            old(self).count == 0 ==> r is None && *final (self) == *old(self),
            old(self).count > 0 ==> r is Some,
            old(self).count > 0 ==> ({
                let base = old(self).last_snap->0;
                let s = r->0;
                let cnt = old(self).count as int;
                &&& s.cpu.global == old(self).cpu_global_sum as int / cnt
                &&& s.cpu.per_core@.len() == base.cpu.per_core@.len()
                &&& forall|i: int|
                    0 <= i < s.cpu.per_core@.len() ==> s.cpu.per_core@[i] == old(
                        self,
                    ).cpu_per_core_sum@[i] as int / cnt
                &&& s.cpu.freq_mhz == base.cpu.freq_mhz
                &&& s.cpu.cores == base.cpu.cores
                &&& s.cpu.temp_centi_c == base.cpu.temp_centi_c
                &&& s.mem.total == base.mem.total
                &&& s.mem.used == old(self).mem_used_sum as int / cnt
                &&& s.mem.available == old(self).mem_avail_sum as int / cnt
                &&& s.mem.cached == base.mem.cached
                &&& s.mem.buffers == base.mem.buffers
                &&& s.mem.swap_total == base.mem.swap_total
                &&& s.mem.swap_used == base.mem.swap_used
                &&& s.disk.parts == base.disk.parts
                &&& (old(self).have_disk_io ==> s.disk.read_bps == Some(
                    ((old(self).disk_read_sum as int / cnt) as u64),
                ) && s.disk.write_bps == Some(((old(self).disk_write_sum as int / cnt) as u64)))
                &&& (!old(self).have_disk_io ==> s.disk.read_bps == base.disk.read_bps
                    && s.disk.write_bps == base.disk.write_bps)
                &&& s.net@.len() == base.net@.len()
                &&& forall|k: int|
                    0 <= k < s.net@.len() ==> #[trigger] s.net@[k].name == base.net@[k].name
                        && s.net@[k].ipv4 == base.net@[k].ipv4 && s.net@[k].mac
                        == base.net@[k].mac && s.net@[k].speed_mbps == base.net@[k].speed_mbps
                        && s.net@[k].rx_packets == base.net@[k].rx_packets && s.net@[k].tx_packets
                        == base.net@[k].tx_packets && (match net_sum_lookup(
                        old(self).net_sum@,
                        base.net@[k].name@,
                    ) {
                        Some(v) => s.net@[k].rx_bps == v.0 as int / cnt && s.net@[k].tx_bps
                            == v.1 as int / cnt,
                        None => s.net@[k].rx_bps == base.net@[k].rx_bps && s.net@[k].tx_bps
                            == base.net@[k].tx_bps,
                    })
                &&& sorted_desc(s.cpu.top@)
                &&& s.cpu.top@.len() == (if base.cpu.top@.len() <= TOP_N {
                    base.cpu.top@.len() as int
                } else {
                    TOP_N as int
                })
                &&& exists|w: Seq<CpuProcess>|
                    w.to_multiset() == smoothed_seq(
                        base.cpu.top@,
                        old(self).proc_ema@,
                    ).to_multiset() && sorted_desc(w) && s.cpu.top@ == w.subrange(
                        0,
                        s.cpu.top@.len() as int,
                    )
            }),
            final (self).count == 0,
            final (self).proc_ema == old(self).proc_ema,
            final (self).last_snap is None,
    {
        if self.count == 0 {
            return None;
        }
        let cnt = self.count;
        let cnt128 = cnt as u128;
        let ghost cnti = cnt as int;

        let mut taken: Option<Snapshot> = None;
        core::mem::swap(&mut self.last_snap, &mut taken);
        let base = taken.unwrap();
        let ghost base_g = old(self).last_snap->0;
        let Snapshot {
            cpu: CpuStats {
                global: _,
                per_core: _,
                freq_mhz,
                cores,
                temp_centi_c,
                top: base_top,
            },
            mem: base_mem,
            disk: DiskStats { parts, read_bps: base_read, write_bps: base_write },
            net: base_net,
        } = base;

        // Scalar averages.
        proof {
            lemma_avg_fits(self.cpu_global_sum as int, cnti);
            lemma_avg_fits(self.mem_used_sum as int, cnti);
            lemma_avg_fits(self.mem_avail_sum as int, cnti);
            lemma_avg_fits(self.disk_read_sum as int, cnti);
            lemma_avg_fits(self.disk_write_sum as int, cnti);
        }
        let global = (self.cpu_global_sum / cnt128) as u64;
        let mem = MemStats {
            total: base_mem.total,
            used: (self.mem_used_sum / cnt128) as u64,
            available: (self.mem_avail_sum / cnt128) as u64,
            cached: base_mem.cached,
            buffers: base_mem.buffers,
            swap_total: base_mem.swap_total,
            swap_used: base_mem.swap_used,
        };

        // Per-core averages, one per accumulated core slot.
        let mut per_core: Vec<u64> = Vec::new();
        let mut i: usize = 0;
        while i < self.cpu_per_core_sum.len()
            invariant
                0 <= i <= self.cpu_per_core_sum@.len(),
                per_core@.len() == i,
                forall|k: int|
                    0 <= k < i ==> per_core@[k] == self.cpu_per_core_sum@[k] as int / cnti,
            decreases self.cpu_per_core_sum@.len() - i,
        {
            proof {
                lemma_avg_fits(self.cpu_per_core_sum@[i as int] as int, cnti);
            }
            per_core.push((self.cpu_per_core_sum[i] / cnt128) as u64);
            i = i + 1;
        }

        // Disk rates: averages when any sample carried both, the base's
        // fields otherwise.
        let (read_bps, write_bps) = if self.have_disk_io {
            (
                Some((self.disk_read_sum / cnt128) as u64),
                Some((self.disk_write_sum / cnt128) as u64),
            )
        } else {
            (base_read, base_write)
        };

        // Per-interface averaged rates over the base's interface list.
        let ghost base_net_g = base_g.net@;
        let mut net: Vec<NicStats> = Vec::new();
        let mut rem = base_net;
        proof {
            assert(base_net_g.skip(0) =~= base_net_g);
        }
        while rem.len() > 0
            invariant
                net@.len() + rem@.len() == base_net_g.len(),
                rem@ == base_net_g.skip(net@.len() as int),
                forall|k: int|
                    0 <= k < net@.len() ==> #[trigger] net@[k].name == base_net_g[k].name
                        && net@[k].ipv4 == base_net_g[k].ipv4 && net@[k].mac == base_net_g[k].mac
                        && net@[k].speed_mbps == base_net_g[k].speed_mbps && net@[k].rx_packets
                        == base_net_g[k].rx_packets && net@[k].tx_packets
                        == base_net_g[k].tx_packets && (match net_sum_lookup(
                        old(self).net_sum@,
                        base_net_g[k].name@,
                    ) {
                        Some(v) => net@[k].rx_bps == v.0 as int / cnti && net@[k].tx_bps
                            == v.1 as int / cnti,
                        None => net@[k].rx_bps == base_net_g[k].rx_bps && net@[k].tx_bps
                            == base_net_g[k].tx_bps,
                    }),
            decreases rem@.len(),
        {
            let ghost k = net@.len() as int;
            let mut nic = rem.remove(0);
            proof {
                assert(nic == base_net_g[k]);
                assert(rem@ =~= base_net_g.skip(k + 1));
            }
            match lookup_net_sum(&self.net_sum, &nic.name) {
                Some((rx_sum, tx_sum)) => {
                    proof {
                        lemma_net_lookup_is_entry(old(self).net_sum@, nic.name@);
                        lemma_avg_fits(rx_sum as int, cnti);
                        lemma_avg_fits(tx_sum as int, cnti);
                    }
                    nic.rx_bps = (rx_sum / cnt128) as u64;
                    nic.tx_bps = (tx_sum / cnt128) as u64;
                },
                None => {},
            }
            net.push(nic);
        }

        // Top list: smooth, sort by smoothed usage descending, cut to
        // TOP_N.
        let ghost base_top_g = base_g.cpu.top@;
        let mut smoothed: Vec<CpuProcess> = Vec::new();
        let mut trem = base_top;
        proof {
            assert(base_top_g.skip(0) =~= base_top_g);
        }
        while trem.len() > 0
            invariant
                smoothed@.len() + trem@.len() == base_top_g.len(),
                trem@ == base_top_g.skip(smoothed@.len() as int),
                forall|k: int|
                    0 <= k < smoothed@.len() ==> smoothed@[k] == smooth_entry(
                        base_top_g[k],
                        old(self).proc_ema@,
                    ),
            decreases trem@.len(),
        {
            let ghost k = smoothed@.len() as int;
            let p = trem.remove(0);
            proof {
                assert(p == base_top_g[k]);
                assert(trem@ =~= base_top_g.skip(k + 1));
            }
            let smoothed_cpu = match lookup_ema(&self.proc_ema, &p.name) {
                Some(e) => e,
                None => p.cpu,
            };
            smoothed.push(CpuProcess { name: p.name, cpu: smoothed_cpu, mem: p.mem });
        }
        proof {
            assert(smoothed@ =~= smoothed_seq(base_top_g, old(self).proc_ema@));
        }
        sort_top_desc(&mut smoothed);
        let ghost witness = smoothed@;
        let keep = if smoothed.len() <= TOP_N {
            smoothed.len()
        } else {
            TOP_N
        };
        smoothed.truncate(keep);
        proof {
            assert(smoothed@ =~= witness.subrange(0, keep as int));
            assert forall|a: int, b: int| 0 <= a <= b < smoothed@.len() implies smoothed@[a].cpu
                >= smoothed@[b].cpu by {
                assert(smoothed@[a] == witness[a]);
                assert(smoothed@[b] == witness[b]);
            }
        }

        // Reset the window; the smoothing map persists by design.
        self.count = 0;
        self.cpu_global_sum = 0;
        self.cpu_per_core_sum = Vec::new();
        self.mem_used_sum = 0;
        self.mem_avail_sum = 0;
        self.disk_read_sum = 0;
        self.disk_write_sum = 0;
        self.have_disk_io = false;
        self.net_sum = Vec::new();

        Some(
            Snapshot {
                cpu: CpuStats {
                    global,
                    per_core,
                    freq_mhz,
                    cores,
                    temp_centi_c,
                    top: smoothed,
                },
                mem,
                disk: DiskStats { parts, read_bps, write_bps },
                net,
            },
        )
    }
}

} // verus!
