//! Assembling one report from the texts that a sample read.
use vstd::prelude::*;
use crate::load::{get_cpu_loads, idle_sum, lemma_system_field_moves_one_row, load_of};
use crate::monitor::{CpuInfo, FilesContent, MonitorError, Source, SysInfo};
use crate::parse::{
    core_count_of, distro_of, freq_model, get_core_count, get_cpu_freqs, get_cpu_times,
    get_mem_info, get_misc_info, kernel_of, lemma_system_token_changes_one_row, mem_available,
    mem_total, row_index, stat_model, uptime_of, cpu_tag,
};
use crate::number::u64_of;
use crate::text::{lines, starts_with, tokens};

verus! {

/// Whether the memory text gives a total and an available amount no larger
/// than it.
pub open spec fn mem_ok(s: Seq<char>) -> bool {
    mem_total(s) is Some && mem_available(s) is Some && mem_available(s)->0 <= mem_total(s)->0
}

/// The error that a sample with the counter text `first` read first, and the
/// texts `files` read after the wait, fails with: the first check that fails
/// in the order counters, identification, memory, uptime, kernel, distribution.
pub open spec fn first_error(first: Seq<char>, files: FilesContent) -> Option<MonitorError> {
    if stat_model(first) is None || stat_model(files.stat@) is None || stat_model(first)->0.len()
        != stat_model(files.stat@)->0.len() {
        Some(MonitorError::Parse(Source::Stat))
    } else if freq_model(files.cpu_info@) is None || core_count_of(files.cpu_info@) > u16::MAX {
        Some(MonitorError::Parse(Source::CpuInfo))
    } else if !mem_ok(files.mem_info@) {
        Some(MonitorError::Parse(Source::MemInfo))
    } else if uptime_of(files.uptime@) is None {
        Some(MonitorError::Parse(Source::Uptime))
    } else if kernel_of(files.kernel@) is None {
        Some(MonitorError::Parse(Source::Kernel))
    } else if distro_of(files.distro@) is None {
        Some(MonitorError::Parse(Source::Distro))
    } else {
        None
    }
}

/// Builds the report of one sample from the counter text `first`, read before
/// the wait, and the texts `files`, read after it. Row `i` of the loads pairs
/// row `i` of the two counter texts; the two must have the same number of rows.
pub fn sys_info_from_texts(first: String, files: FilesContent) -> (r: Result<SysInfo, MonitorError>)
    ensures
        match first_error(first@, files) {
            Some(e) => r == Err::<SysInfo, MonitorError>(e),
            None => r is Ok,
        },
        r matches Ok(info) ==> {
            let a = stat_model(first@)->0;
            let b = stat_model(files.stat@)->0;
            &&& info.cpu.load.loads@.len() == a.len()
            &&& forall|i: int|
                0 <= i < a.len() ==> #[trigger] info.cpu.load.loads@[i] == load_of(a[i], b[i])
            &&& info.cpu.freq.freqs@ == freq_model(files.cpu_info@)->0
            &&& info.cpu.core_count == core_count_of(files.cpu_info@)
            &&& info.mem.total == mem_total(files.mem_info@)->0
            &&& info.mem.taken == mem_total(files.mem_info@)->0 - mem_available(files.mem_info@)->0
            &&& info.misc.uptime == uptime_of(files.uptime@)->0
            &&& info.misc.kernel@ == kernel_of(files.kernel@)->0
            &&& info.misc.distro@ == distro_of(files.distro@)->0
        },
{
    let ghost files_in = files;
    let FilesContent { stat, cpu_info, mem_info, uptime, kernel, distro } = files;
    let time1 = match get_cpu_times(first) {
        Some(t) => t,
        None => {
            return Err(MonitorError::Parse(Source::Stat));
        },
    };
    let time2 = match get_cpu_times(stat) {
        Some(t) => t,
        None => {
            return Err(MonitorError::Parse(Source::Stat));
        },
    };
    if time1.times.len() != time2.times.len() {
        return Err(MonitorError::Parse(Source::Stat));
    }
    let freq = match get_cpu_freqs(&cpu_info) {
        Some(f) => f,
        None => {
            return Err(MonitorError::Parse(Source::CpuInfo));
        },
    };
    let core_count = match get_core_count(&cpu_info) {
        Some(c) => c,
        None => {
            return Err(MonitorError::Parse(Source::CpuInfo));
        },
    };
    let mem = match get_mem_info(mem_info) {
        Some(m) => m,
        None => {
            return Err(MonitorError::Parse(Source::MemInfo));
        },
    };
    let misc = match get_misc_info(uptime, kernel, distro) {
        Ok(m) => m,
        Err(e) => {
            return Err(e);
        },
    };
    let load = get_cpu_loads(time1, time2);
    Ok(SysInfo { cpu: CpuInfo { load, freq, core_count }, mem, misc })
}

/// Take two samples that read the same counter text `first` before the wait.
/// After the wait, one reads `stat` and the other reads `changed`. `changed`
/// differs from `stat` only in line `m`, a counter row whose system field
/// (its fourth token) now holds `x`. Then every core other than that row's
/// keeps its load, as `sys_info_from_texts` reports loads. That row's load
/// moves the same way as its system field, and strictly when idle time
/// elapsed in it. Loads are compared as fractions, by cross-multiplying.
pub proof fn lemma_system_text_moves_one_core(
    first: Seq<char>,
    stat: Seq<char>,
    changed: Seq<char>,
    m: int,
    line: Seq<char>,
    token: Seq<char>,
    x: u64,
)
    requires
        stat_model(first) is Some,
        stat_model(stat) is Some,
        stat_model(first)->0.len() == stat_model(stat)->0.len(),
        1 <= m < lines(stat).len(),
        starts_with(lines(stat)[m], cpu_tag()),
        starts_with(line, cpu_tag()),
        tokens(line) == tokens(lines(stat)[m]).update(3, token),
        u64_of(token) == Some(x),
        lines(changed) == lines(stat).update(m, line),
        forall|f: int|
            0 <= f < 10 ==> stat_model(first)->0[row_index(stat, m)][f] <= stat_model(
                stat,
            )->0[row_index(stat, m)][f],
        stat_model(first)->0[row_index(stat, m)][2] <= x,
    ensures
        ({
            let a = stat_model(first)->0;
            let b = stat_model(stat)->0;
            let c = stat_model(changed)->0;
            let j = row_index(stat, m);
            let before = load_of(a[j], b[j]);
            let after = load_of(a[j], c[j]);
            &&& stat_model(changed) is Some
            &&& c.len() == a.len()
            &&& 0 <= j < a.len()
            &&& forall|i: int|
                0 <= i < a.len() && i != j ==> load_of(a[i], c[i]) == load_of(a[i], b[i])
            &&& x <= b[j][2] ==> after.busy * before.elapsed <= before.busy * after.elapsed
            &&& b[j][2] <= x ==> before.busy * after.elapsed <= after.busy * before.elapsed
            &&& idle_sum(a[j]) < idle_sum(b[j]) && x < b[j][2] ==> after.busy * before.elapsed
                < before.busy * after.elapsed
            &&& idle_sum(a[j]) < idle_sum(b[j]) && b[j][2] < x ==> before.busy * after.elapsed
                < after.busy * before.elapsed
        }),
{
    lemma_system_token_changes_one_row(stat, changed, m, line, token, x);
    let a = stat_model(first)->0;
    let b = stat_model(stat)->0;
    let j = row_index(stat, m);
    lemma_system_field_moves_one_row(a, b, j, x);
}

} // verus!
