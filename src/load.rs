//! Per-core load from two counter snapshots.
use vstd::prelude::*;
use crate::monitor::{CoreLoad, CoreTime, CpuLoad, CpuTime};

verus! {

/// Counter time that counts as idle: the fields at positions 1 and 4.
pub open spec fn idle_sum(t: Seq<u64>) -> int {
    t[1] + t[4]
}

/// Counter time that counts as busy: the fields at positions 0, 1, 2, 5, 6,
/// 7, 8 and 9.
pub open spec fn busy_sum(t: Seq<u64>) -> int {
    t[0] + t[1] + t[2] + t[5] + t[6] + t[7] + t[8] + t[9]
}

/// How much a counter sum grew from `a` to `b`; a sum that went back counts
/// as no growth.
pub open spec fn rise(a: int, b: int) -> int {
    if b >= a {
        b - a
    } else {
        0
    }
}

/// The busy time between snapshots `a` and `b` of one row.
pub open spec fn busy_delta(a: Seq<u64>, b: Seq<u64>) -> int {
    rise(busy_sum(a), busy_sum(b))
}

/// The elapsed time between snapshots `a` and `b` of one row: busy plus idle.
pub open spec fn elapsed_delta(a: Seq<u64>, b: Seq<u64>) -> int {
    rise(busy_sum(a), busy_sum(b)) + rise(idle_sum(a), idle_sum(b))
}

/// The load of one row between snapshots `a` and `b`.
pub open spec fn load_of(a: Seq<u64>, b: Seq<u64>) -> CoreLoad {
    CoreLoad { busy: busy_delta(a, b) as u128, elapsed: elapsed_delta(a, b) as u128 }
}

impl CoreLoad {
    /// The load as a fraction `(numerator, denominator)` with a positive
    /// denominator; when no time elapsed the load is zero.
    pub fn fraction(&self) -> (r: (u128, u128))
        ensures
            r.1 > 0,
            self.elapsed == 0 ==> r == (0u128, 1u128),
            self.elapsed > 0 ==> r == (self.busy, self.elapsed),
    {
        if self.elapsed == 0 {
            (0, 1)
        } else {
            (self.busy, self.elapsed)
        }
    }
}

/// Sums the idle fields of one row.
fn idle_total(t: &CoreTime) -> (r: u128)
    ensures
        r == idle_sum(t@),
{
    t.time[1] as u128 + t.time[4] as u128
}

/// Sums the busy fields of one row.
fn busy_total(t: &CoreTime) -> (r: u128)
    ensures
        r == busy_sum(t@),
{
    t.time[0] as u128 + t.time[1] as u128 + t.time[2] as u128 + t.time[5] as u128
        + t.time[6] as u128 + t.time[7] as u128 + t.time[8] as u128 + t.time[9] as u128
}

/// The load of one row between an earlier snapshot `time1` and a later one
/// `time2`.
pub fn get_core_load(time1: &CoreTime, time2: &CoreTime) -> (r: CoreLoad)
    ensures
        r == load_of(time1@, time2@),
        r.busy <= r.elapsed,
{
    let idle1 = idle_total(time1);
    let idle2 = idle_total(time2);
    let busy1 = busy_total(time1);
    let busy2 = busy_total(time2);
    let delta_idle: u128 = if idle2 >= idle1 {
        idle2 - idle1
    } else {
        0
    };
    let delta_busy: u128 = if busy2 >= busy1 {
        busy2 - busy1
    } else {
        0
    };
    CoreLoad { busy: delta_busy, elapsed: delta_busy + delta_idle }
}

/// The load of each row, pairing row `i` of `time1` with row `i` of `time2`.
pub fn get_cpu_loads(time1: CpuTime, time2: CpuTime) -> (r: CpuLoad)
    requires
        time1@.len() == time2@.len(),
    ensures
        r.loads@.len() == time1@.len(),
        forall|i: int| 0 <= i < time1@.len() ==> r.loads@[i] == load_of(time1@[i], time2@[i]),
{
    let mut loads: Vec<CoreLoad> = Vec::new();
    let mut i: usize = 0;
    while i < time1.times.len()
        invariant
            i <= time1@.len() == time2@.len(),
            time1@.len() == time1.times@.len(),
            time2@.len() == time2.times@.len(),
            loads@.len() == i,
            forall|j: int| 0 <= j < i ==> loads@[j] == load_of(time1@[j], time2@[j]),
        decreases time1@.len() - i,
    {
        loads.push(get_core_load(&time1.times[i], &time2.times[i]));
        i = i + 1;
    }
    CpuLoad { loads }
}

/// Between two snapshots of a row whose counters only increase, the busy
/// time never exceeds the elapsed time: the load lies between 0 and 1.
pub proof fn lemma_load_within_unit(a: Seq<u64>, b: Seq<u64>)
    requires
        a.len() == 10,
        b.len() == 10,
        forall|i: int| 0 <= i < 10 ==> a[i] <= b[i],
    ensures
        0 <= load_of(a, b).busy <= load_of(a, b).elapsed,
        load_of(a, b).busy == busy_sum(b) - busy_sum(a),
        load_of(a, b).elapsed == (busy_sum(b) - busy_sum(a)) + (idle_sum(b) - idle_sum(a)),
{
}

/// Two identical snapshots of a row give no elapsed time, and so a load of
/// exactly zero.
pub proof fn lemma_no_work_no_load(a: Seq<u64>)
    requires
        a.len() == 10,
    ensures
        load_of(a, a) == (CoreLoad { busy: 0, elapsed: 0 }),
{
}

/// Changing only the system field (position 2) of row `k` in the later
/// snapshot moves the load of row `k` in the same direction as the field,
/// and leaves the load of every other row as it was; when idle time elapsed
/// in row `k`, a change of the field strictly changes its load. Loads are
/// compared as fractions, by cross-multiplying.
pub proof fn lemma_system_field_moves_one_row(
    first: Seq<Seq<u64>>,
    second: Seq<Seq<u64>>,
    k: int,
    system: u64,
)
    requires
        first.len() == second.len(),
        0 <= k < first.len(),
        first[k].len() == 10,
        second[k].len() == 10,
        forall|i: int| 0 <= i < 10 ==> first[k][i] <= second[k][i],
        first[k][2] <= system,
    ensures
        ({
            let changed = second.update(k, second[k].update(2, system));
            let before = load_of(first[k], second[k]);
            let after = load_of(first[k], changed[k]);
            &&& forall|i: int|
                0 <= i < first.len() && i != k ==> load_of(first[i], changed[i]) == load_of(
                    first[i],
                    second[i],
                )
            &&& system <= second[k][2] ==> after.busy * before.elapsed <= before.busy
                * after.elapsed
            &&& second[k][2] <= system ==> before.busy * after.elapsed <= after.busy
                * before.elapsed
            &&& idle_sum(first[k]) < idle_sum(second[k]) && system < second[k][2] ==> after.busy
                * before.elapsed < before.busy * after.elapsed
            &&& idle_sum(first[k]) < idle_sum(second[k]) && second[k][2] < system ==> before.busy
                * after.elapsed < after.busy * before.elapsed
        }),
{
    let changed = second.update(k, second[k].update(2, system));
    let a = first[k];
    let b = second[k];
    let c = changed[k];
    assert(c[2] == system);
    assert(forall|i: int| 0 <= i < 10 && i != 2 ==> c[i] == b[i]);
    let busy_b: int = busy_sum(b) - busy_sum(a);
    let busy_c: int = busy_sum(c) - busy_sum(a);
    let idle: int = idle_sum(b) - idle_sum(a);
    assert(idle_sum(c) == idle_sum(b));
    assert(busy_c - busy_b == system - b[2]);
    assert(busy_b >= 0 && busy_c >= 0 && idle >= 0);
    assert(load_of(a, b).busy == busy_b && load_of(a, b).elapsed == busy_b + idle);
    assert(load_of(a, c).busy == busy_c && load_of(a, c).elapsed == busy_c + idle);
    if idle > 0 && system < b[2] {
        assert(busy_c * (busy_b + idle) < busy_b * (busy_c + idle)) by (nonlinear_arith)
            requires
                0 <= busy_c < busy_b,
                0 < idle,
        ;
    }
    if idle > 0 && b[2] < system {
        assert(busy_b * (busy_c + idle) < busy_c * (busy_b + idle)) by (nonlinear_arith)
            requires
                0 <= busy_b < busy_c,
                0 < idle,
        ;
    }
    if system <= b[2] {
        assert(busy_c * (busy_b + idle) <= busy_b * (busy_c + idle)) by (nonlinear_arith)
            requires
                0 <= busy_c <= busy_b,
                0 <= idle,
        ;
    }
    if b[2] <= system {
        assert(busy_b * (busy_c + idle) <= busy_c * (busy_b + idle)) by (nonlinear_arith)
            requires
                0 <= busy_b <= busy_c,
                0 <= idle,
        ;
    }
}

} // verus!
