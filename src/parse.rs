//! Parsers for the texts of the kernel's pseudo-files.
use vstd::prelude::*;
use crate::monitor::{CoreTime, CpuFreq, CpuTime, MemInfo, MiscInfo, MonitorError, Source};
use crate::number::{parse_u64, u64_of};
use crate::reading::{floor_of, parse_floor};
use crate::text::{
    chars_of, find_char, has_prefix, index_of, lines, slice_chars, split_lines, split_tokens,
    starts_with, string_of, tokens, views,
};

verus! {

/// The lines of `ls` that begin with `p`, in order.
pub open spec fn lines_with_prefix(ls: Seq<Seq<char>>, p: Seq<char>) -> Seq<Seq<char>>
    decreases ls.len(),
{
    if ls.len() == 0 {
        seq![]
    } else {
        let r = lines_with_prefix(ls.drop_last(), p);
        if starts_with(ls.last(), p) {
            r.push(ls.last())
        } else {
            r
        }
    }
}

proof fn lemma_lines_with_prefix_append(a: Seq<Seq<char>>, b: Seq<Seq<char>>, p: Seq<char>)
    ensures
        lines_with_prefix(a + b, p) == lines_with_prefix(a, p) + lines_with_prefix(b, p),
    decreases b.len(),
{
    if b.len() == 0 {
        assert(a + b =~= a);
        assert(lines_with_prefix(a, p) + lines_with_prefix(b, p) =~= lines_with_prefix(a, p));
    } else {
        lemma_lines_with_prefix_append(a, b.drop_last(), p);
        assert((a + b).drop_last() =~= a + b.drop_last());
        assert((a + b).last() == b.last());
        if starts_with(b.last(), p) {
            assert(lines_with_prefix(a, p) + lines_with_prefix(b, p) =~= (lines_with_prefix(a, p)
                + lines_with_prefix(b.drop_last(), p)).push(b.last()));
        }
    }
}

/// Splits the row `i .. i + 1` off the lines `lo .. hi`.
proof fn lemma_lines_with_prefix_split(ls: Seq<Seq<char>>, lo: int, i: int, hi: int, p: Seq<char>)
    requires
        0 <= lo <= i <= hi <= ls.len(),
    ensures
        lines_with_prefix(ls.subrange(lo, hi), p) == lines_with_prefix(ls.subrange(lo, i), p)
            + lines_with_prefix(ls.subrange(i, hi), p),
{
    assert(ls.subrange(lo, i) + ls.subrange(i, hi) =~= ls.subrange(lo, hi));
    lemma_lines_with_prefix_append(ls.subrange(lo, i), ls.subrange(i, hi), p);
}

pub open spec fn cpu_tag() -> Seq<char> {
    "cpu"@
}

pub open spec fn mhz_tag() -> Seq<char> {
    "cpu MHz"@
}

pub open spec fn processor_tag() -> Seq<char> {
    "processor"@
}

pub open spec fn pretty_name_tag() -> Seq<char> {
    "PRETTY_NAME"@
}

/// The ten counters of a counter row: every token after the row's tag must
/// be a `u64`, and there must be at least ten of them; the first ten are the
/// counters.
pub open spec fn core_fields(line: Seq<char>) -> Option<Seq<u64>> {
    let t = tokens(line);
    if t.len() >= 11 && (forall|i: int| 1 <= i < t.len() ==> (#[trigger] u64_of(t[i])) is Some) {
        Some(Seq::new(10, |i: int| u64_of(t[i + 1])->0))
    } else {
        None
    }
}

/// The counter rows of the counter text: after its first line, each line
/// that begins with `cpu`.
pub open spec fn counter_rows(stat: Seq<char>) -> Seq<Seq<char>> {
    let ls = lines(stat);
    lines_with_prefix(
        if ls.len() == 0 {
            ls
        } else {
            ls.drop_first()
        },
        cpu_tag(),
    )
}

/// The snapshot that the counter text holds, if every counter row parses.
pub open spec fn stat_model(stat: Seq<char>) -> Option<Seq<Seq<u64>>> {
    let rows = counter_rows(stat);
    if forall|i: int| 0 <= i < rows.len() ==> (#[trigger] core_fields(rows[i])) is Some {
        Some(Seq::new(rows.len() as nat, |i: int| core_fields(rows[i])->0))
    } else {
        None
    }
}

/// The clock reading of a `cpu MHz` line: its fourth token, whole megahertz.
pub open spec fn mhz_of(line: Seq<char>) -> Option<u64> {
    let t = tokens(line);
    if t.len() > 3 {
        floor_of(t[3])
    } else {
        None
    }
}

/// The clock readings of the identification text, if every `cpu MHz` line
/// holds one.
pub open spec fn freq_model(cpu_info: Seq<char>) -> Option<Seq<u64>> {
    let rows = lines_with_prefix(lines(cpu_info), mhz_tag());
    if forall|i: int| 0 <= i < rows.len() ==> (#[trigger] mhz_of(rows[i])) is Some {
        Some(Seq::new(rows.len() as nat, |i: int| mhz_of(rows[i])->0))
    } else {
        None
    }
}

/// The number of lines of the identification text that begin with `processor`.
pub open spec fn core_count_of(cpu_info: Seq<char>) -> nat {
    lines_with_prefix(lines(cpu_info), processor_tag()).len()
}

/// Token `k` of line `n` of `s`, if there is one.
pub open spec fn field_at(s: Seq<char>, n: int, k: int) -> Option<Seq<char>> {
    let ls = lines(s);
    if 0 <= n < ls.len() && 0 <= k < tokens(ls[n]).len() {
        Some(tokens(ls[n])[k])
    } else {
        None
    }
}

/// The number in token `k` of line `n` of `s`.
pub open spec fn number_at(s: Seq<char>, n: int, k: int) -> Option<u64> {
    match field_at(s, n, k) {
        Some(t) => u64_of(t),
        None => None,
    }
}

/// Total memory: the second token of the first line.
pub open spec fn mem_total(s: Seq<char>) -> Option<u64> {
    number_at(s, 0, 1)
}

/// Available memory: the second token of the third line.
pub open spec fn mem_available(s: Seq<char>) -> Option<u64> {
    number_at(s, 2, 1)
}

/// Whole seconds since boot: the first token, fraction dropped.
pub open spec fn uptime_of(s: Seq<char>) -> Option<u64> {
    let t = tokens(s);
    if t.len() > 0 {
        floor_of(t[0])
    } else {
        None
    }
}

/// The kernel release: the third token.
pub open spec fn kernel_of(s: Seq<char>) -> Option<Seq<char>> {
    let t = tokens(s);
    if t.len() > 2 {
        Some(t[2])
    } else {
        None
    }
}

/// What stands between the first two double quotes of `line`; `None` when
/// the line holds fewer than two.
pub open spec fn quoted(line: Seq<char>) -> Option<Seq<char>> {
    let i = index_of(line, '"');
    if i < 0 {
        None
    } else {
        let rest = line.skip(i + 1);
        let j = index_of(rest, '"');
        if j < 0 {
            None
        } else {
            Some(rest.take(j))
        }
    }
}

/// The distribution's name: the quoted value of the first line that begins
/// with `PRETTY_NAME`.
pub open spec fn distro_of(s: Seq<char>) -> Option<Seq<char>> {
    let rows = lines_with_prefix(lines(s), pretty_name_tag());
    if rows.len() > 0 {
        quoted(rows[0])
    } else {
        None
    }
}

/// Reads the ten counters of a counter row.
fn fields_of_line(line: &Vec<char>) -> (r: Option<[u64; 10]>)
    ensures
        match r {
            Some(a) => core_fields(line@) == Some(a@),
            None => core_fields(line@) is None,
        },
{
    let toks = split_tokens(line);
    let ghost t = tokens(line@);
    assert(views(toks@) == t);
    if toks.len() < 11 {
        return None;
    }
    let mut times: [u64; 10] = [0;10];
    let mut i: usize = 0;
    while i < 10
        invariant
            0 <= i <= 10,
            toks@.len() >= 11,
            views(toks@) == t,
            t == tokens(line@),
            forall|j: int| 1 <= j < i + 1 ==> (#[trigger] u64_of(t[j])) is Some,
            forall|j: int| 0 <= j < i ==> times@[j] == u64_of(t[j + 1])->0,
        decreases 10 - i,
    {
        assert(toks@[i + 1]@ == t[i + 1]);
        match parse_u64(&toks[i + 1]) {
            Some(x) => {
                times[i] = x;
            },
            None => {
                return None;
            },
        }
        i = i + 1;
    }
    let n = toks.len();
    let mut k: usize = 11;
    while k < n
        invariant
            11 <= k <= n,
            n == toks@.len(),
            views(toks@) == t,
            t == tokens(line@),
            forall|j: int| 1 <= j < k ==> (#[trigger] u64_of(t[j])) is Some,
        decreases n - k,
    {
        assert(toks@[k as int]@ == t[k as int]);
        if parse_u64(&toks[k]).is_none() {
            return None;
        }
        k = k + 1;
    }
    assert(times@ =~= Seq::new(10, |j: int| u64_of(t[j + 1])->0));
    Some(times)
}

/// Reads the ten counters of a counter row such as `cpu0 1 2 3 4 5 6 7 8 9 10`.
pub fn time_string_to_array(time_string: String) -> (r: Option<[u64; 10]>)
    ensures
        match r {
            Some(a) => core_fields(time_string@) == Some(a@),
            None => core_fields(time_string@) is None,
        },
{
    let v = chars_of(time_string.as_str());
    fields_of_line(&v)
}

/// Parses the counter text into a snapshot: past its first line, one row for
/// each line that begins with `cpu`, in the order of the text. `None` when
/// such a row does not hold ten counters.
pub fn get_cpu_times(stat: String) -> (r: Option<CpuTime>)
    ensures
        match r {
            Some(c) => stat_model(stat@) == Some(c@),
            None => stat_model(stat@) is None,
        },
{
    let v = chars_of(stat.as_str());
    let ls = split_lines(&v);
    let ghost all = lines(stat@);
    let ghost rest = if all.len() == 0 {
        all
    } else {
        all.drop_first()
    };
    let tag = chars_of("cpu");
    let mut times: Vec<CoreTime> = Vec::new();
    let n = ls.len();
    if n == 0 {
        let c = CpuTime { times };
        assert(c@ =~= seq![]);
        return Some(c);
    }
    assert(rest =~= all.subrange(1, n as int));
    assert(counter_rows(stat@) == lines_with_prefix(all.subrange(1, n as int), cpu_tag()));
    let mut i: usize = 1;
    assert(all.subrange(1, 1) =~= seq![]);
    while i < n
        invariant
            1 <= i <= n,
            n == ls@.len(),
            views(ls@) == all,
            all == lines(stat@),
            all.len() > 0,
            counter_rows(stat@) == lines_with_prefix(all.subrange(1, n as int), cpu_tag()),
            tag@ == cpu_tag(),
            ({
                let rows = lines_with_prefix(all.subrange(1, i as int), cpu_tag());
                &&& times@.len() == rows.len()
                &&& forall|j: int| 0 <= j < rows.len() ==> (#[trigger] core_fields(rows[j])) == Some(
                    times@[j]@,
                )
            }),
        decreases n - i,
    {
        let ghost before = all.subrange(1, i as int);
        assert(all.subrange(1, i + 1).drop_last() =~= before);
        assert(ls@[i as int]@ == all[i as int]);
        if has_prefix(&ls[i], &tag) {
            match fields_of_line(&ls[i]) {
                Some(a) => {
                    times.push(CoreTime { time: a });
                },
                None => {
                    proof {
                        lemma_lines_with_prefix_split(all, 1, i + 1, n as int, cpu_tag());
                        let rows = lines_with_prefix(all.subrange(1, i + 1), cpu_tag());
                        assert(rows.last() == all[i as int]);
                        assert(counter_rows(stat@)[rows.len() - 1] == all[i as int]);
                        assert(core_fields(counter_rows(stat@)[rows.len() - 1]) is None);
                    }
                    return None;
                },
            }
        }
        i = i + 1;
    }
    let c = CpuTime { times };
    proof {
        assert(all.subrange(1, n as int) =~= rest);
        let rows = counter_rows(stat@);
        assert(c@ =~= Seq::new(rows.len() as nat, |j: int| core_fields(rows[j])->0));
    }
    Some(c)
}

/// Parses the clock reading of each `cpu MHz` line of the identification
/// text, in whole megahertz.
pub fn get_cpu_freqs(cpu_info: &String) -> (r: Option<CpuFreq>)
    ensures
        match r {
            Some(f) => freq_model(cpu_info@) == Some(f.freqs@),
            None => freq_model(cpu_info@) is None,
        },
{
    let v = chars_of(cpu_info.as_str());
    let ls = split_lines(&v);
    let ghost all = lines(cpu_info@);
    let tag = chars_of("cpu MHz");
    let mut freqs: Vec<u64> = Vec::new();
    let n = ls.len();
    let mut i: usize = 0;
    assert(all.subrange(0, 0) =~= seq![]);
    while i < n
        invariant
            0 <= i <= n,
            n == ls@.len(),
            views(ls@) == all,
            all == lines(cpu_info@),
            tag@ == mhz_tag(),
            ({
                let rows = lines_with_prefix(all.subrange(0, i as int), mhz_tag());
                &&& freqs@.len() == rows.len()
                &&& forall|j: int| 0 <= j < rows.len() ==> (#[trigger] mhz_of(rows[j])) == Some(
                    freqs@[j],
                )
            }),
        decreases n - i,
    {
        let ghost before = all.subrange(0, i as int);
        assert(all.subrange(0, i + 1).drop_last() =~= before);
        assert(ls@[i as int]@ == all[i as int]);
        if has_prefix(&ls[i], &tag) {
            let toks = split_tokens(&ls[i]);
            let reading = if toks.len() > 3 {
                assert(toks@[3]@ == tokens(all[i as int])[3]);
                parse_floor(&toks[3])
            } else {
                None
            };
            match reading {
                Some(x) => {
                    freqs.push(x);
                },
                None => {
                    proof {
                        lemma_lines_with_prefix_split(all, 0, i + 1, n as int, mhz_tag());
                        let rows = lines_with_prefix(all.subrange(0, i + 1), mhz_tag());
                        assert(all.subrange(0, n as int) =~= all);
                        assert(lines_with_prefix(all, mhz_tag())[rows.len() - 1] == all[i as int]);
                        assert(mhz_of(lines_with_prefix(all, mhz_tag())[rows.len() - 1]) is None);
                    }
                    return None;
                },
            }
        }
        i = i + 1;
    }
    proof {
        assert(all.subrange(0, n as int) =~= all);
        let rows = lines_with_prefix(all, mhz_tag());
        assert(freqs@ =~= Seq::new(rows.len() as nat, |j: int| mhz_of(rows[j])->0));
    }
    Some(CpuFreq { freqs })
}

/// Counts the lines of the identification text that begin with `processor`;
/// `None` when there are more than a `u16` holds.
pub fn get_core_count(cpu_info: &String) -> (r: Option<u16>)
    ensures
        core_count_of(cpu_info@) <= u16::MAX ==> r == Some(core_count_of(cpu_info@) as u16),
        core_count_of(cpu_info@) > u16::MAX ==> r is None,
{
    let v = chars_of(cpu_info.as_str());
    let ls = split_lines(&v);
    let ghost all = lines(cpu_info@);
    let tag = chars_of("processor");
    let n = ls.len();
    let mut count: usize = 0;
    let mut i: usize = 0;
    assert(all.subrange(0, 0) =~= seq![]);
    while i < n
        invariant
            0 <= i <= n,
            n == ls@.len(),
            views(ls@) == all,
            tag@ == processor_tag(),
            count == lines_with_prefix(all.subrange(0, i as int), processor_tag()).len(),
            count <= i,
        decreases n - i,
    {
        assert(all.subrange(0, i + 1).drop_last() =~= all.subrange(0, i as int));
        assert(ls@[i as int]@ == all[i as int]);
        if has_prefix(&ls[i], &tag) {
            count = count + 1;
        }
        i = i + 1;
    }
    assert(all.subrange(0, n as int) =~= all);
    if count > 65535 {
        None
    } else {
        Some(count as u16)
    }
}

/// Token `k` of line `n` of the given lines.
fn field_of(ls: &Vec<Vec<char>>, n: usize, k: usize) -> (r: Option<Vec<char>>)
    ensures
        match r {
            Some(f) => n < ls@.len() && k < tokens(ls@[n as int]@).len() && f@ == tokens(
                ls@[n as int]@,
            )[k as int],
            None => !(n < ls@.len() && k < tokens(ls@[n as int]@).len()),
        },
{
    if n >= ls.len() {
        return None;
    }
    let toks = split_tokens(&ls[n]);
    if k >= toks.len() {
        return None;
    }
    assert(toks@[k as int]@ == views(toks@)[k as int]);
    Some(slice_chars(&toks[k], 0, toks[k].len()))
}

/// The number in token `k` of line `n` of the given lines.
fn number_of(ls: &Vec<Vec<char>>, n: usize, k: usize) -> (r: Option<u64>)
    ensures
        r == (if n < ls@.len() && k < tokens(ls@[n as int]@).len() {
            u64_of(tokens(ls@[n as int]@)[k as int])
        } else {
            None
        }),
{
    match field_of(ls, n, k) {
        Some(f) => {
            assert(f@ == f@.subrange(0, f@.len() as int));
            parse_u64(&f)
        },
        None => None,
    }
}

/// Parses the memory text: the total from the first line, what is available
/// from the third, and what is taken as their difference. `None` when a
/// number is missing or malformed, or when more is available than the total.
pub fn get_mem_info(mem_info: String) -> (r: Option<MemInfo>)
    ensures
        r is Some <==> (mem_total(mem_info@) is Some && mem_available(mem_info@) is Some
            && mem_available(mem_info@)->0 <= mem_total(mem_info@)->0),
        r matches Some(m) ==> m.total == mem_total(mem_info@)->0 && m.taken == mem_total(
            mem_info@,
        )->0 - mem_available(mem_info@)->0,
{
    let v = chars_of(mem_info.as_str());
    let ls = split_lines(&v);
    assert(views(ls@) == lines(mem_info@));
    assert(ls@.len() > 0 ==> ls@[0]@ == lines(mem_info@)[0]);
    assert(ls@.len() > 2 ==> ls@[2]@ == lines(mem_info@)[2]);
    let total = number_of(&ls, 0, 1);
    let available = number_of(&ls, 2, 1);
    match (total, available) {
        (Some(t), Some(a)) => {
            if a <= t {
                Some(MemInfo { total: t, taken: t - a })
            } else {
                None
            }
        },
        _ => None,
    }
}

/// Parses the uptime text: whole seconds since boot, the fraction dropped.
pub fn get_uptime(uptime: String) -> (r: Option<u64>)
    ensures
        r == uptime_of(uptime@),
{
    let v = chars_of(uptime.as_str());
    let toks = split_tokens(&v);
    if toks.len() == 0 {
        return None;
    }
    assert(toks@[0]@ == views(toks@)[0]);
    parse_floor(&toks[0])
}

/// Parses the kernel version text: its third token.
pub fn get_kernel_version(kernel: String) -> (r: Option<String>)
    ensures
        match r {
            Some(s) => kernel_of(kernel@) == Some(s@),
            None => kernel_of(kernel@) is None,
        },
{
    let v = chars_of(kernel.as_str());
    let toks = split_tokens(&v);
    if toks.len() <= 2 {
        return None;
    }
    assert(toks@[2]@ == views(toks@)[2]);
    Some(string_of(&toks[2]))
}

/// The text between the first two double quotes of `line`.
fn quoted_value(line: &Vec<char>) -> (r: Option<Vec<char>>)
    ensures
        match r {
            Some(q) => quoted(line@) == Some(q@),
            None => quoted(line@) is None,
        },
{
    assert(line@.skip(0) =~= line@);
    match find_char(line, 0, '"') {
        None => None,
        Some(i) => {
            let n = line.len();
            assert(i < n);
            match find_char(line, i + 1, '"') {
                None => None,
                Some(j) => {
                    assert(line@.skip(i + 1).take(j - i - 1) =~= line@.subrange(
                        i + 1,
                        j as int,
                    ));
                    Some(slice_chars(line, i + 1, j))
                },
            }
        },
    }
}

/// Parses the distribution text: the quoted value of the first line that
/// begins with `PRETTY_NAME`. `None` when there is no such line, or it holds
/// fewer than two double quotes.
pub fn get_distro_name(distro: String) -> (r: Option<String>)
    ensures
        match r {
            Some(s) => distro_of(distro@) == Some(s@),
            None => distro_of(distro@) is None,
        },
{
    let v = chars_of(distro.as_str());
    let ls = split_lines(&v);
    let ghost all = lines(distro@);
    let tag = chars_of("PRETTY_NAME");
    let n = ls.len();
    let mut i: usize = 0;
    assert(all.subrange(0, 0) =~= seq![]);
    while i < n
        invariant
            0 <= i <= n,
            n == ls@.len(),
            views(ls@) == all,
            all == lines(distro@),
            tag@ == pretty_name_tag(),
            lines_with_prefix(all.subrange(0, i as int), pretty_name_tag()).len() == 0,
        decreases n - i,
    {
        assert(all.subrange(0, i + 1).drop_last() =~= all.subrange(0, i as int));
        assert(ls@[i as int]@ == all[i as int]);
        if has_prefix(&ls[i], &tag) {
            proof {
                lemma_lines_with_prefix_split(all, 0, i + 1, n as int, pretty_name_tag());
                assert(all.subrange(0, n as int) =~= all);
                assert(lines_with_prefix(all, pretty_name_tag())[0] == all[i as int]);
            }
            return match quoted_value(&ls[i]) {
                Some(q) => Some(string_of(&q)),
                None => None,
            };
        }
        i = i + 1;
    }
    assert(all.subrange(0, n as int) =~= all);
    None
}

/// Parses the uptime, kernel and distribution texts; the first of them that
/// does not parse gives the error.
pub fn get_misc_info(uptime: String, kernel: String, distro: String) -> (r: Result<
    MiscInfo,
    MonitorError,
>)
    ensures
        uptime_of(uptime@) is None ==> r == Err::<MiscInfo, MonitorError>(
            MonitorError::Parse(Source::Uptime),
        ),
        uptime_of(uptime@) is Some && kernel_of(kernel@) is None ==> r == Err::<
            MiscInfo,
            MonitorError,
        >(MonitorError::Parse(Source::Kernel)),
        uptime_of(uptime@) is Some && kernel_of(kernel@) is Some && distro_of(distro@) is None
            ==> r == Err::<MiscInfo, MonitorError>(MonitorError::Parse(Source::Distro)),
        r is Ok <==> (uptime_of(uptime@) is Some && kernel_of(kernel@) is Some && distro_of(
            distro@,
        ) is Some),
        r matches Ok(m) ==> m.uptime == uptime_of(uptime@)->0 && m.kernel@ == kernel_of(
            kernel@,
        )->0 && m.distro@ == distro_of(distro@)->0,
{
    let up = match get_uptime(uptime) {
        Some(u) => u,
        None => {
            return Err(MonitorError::Parse(Source::Uptime));
        },
    };
    let kern = match get_kernel_version(kernel) {
        Some(k) => k,
        None => {
            return Err(MonitorError::Parse(Source::Kernel));
        },
    };
    let name = match get_distro_name(distro) {
        Some(d) => d,
        None => {
            return Err(MonitorError::Parse(Source::Distro));
        },
    };
    Ok(MiscInfo { uptime: up, kernel: kern, distro: name })
}

/// The position, among the counter rows of `stat`, of the row that line `m`
/// of `stat` gives.
pub open spec fn row_index(stat: Seq<char>, m: int) -> int {
    lines_with_prefix(lines(stat).subrange(1, m), cpu_tag()).len() as int
}

/// Replacing, in the counter text, a counter row's system field (its fourth
/// token) by another number changes the snapshot only in that row's system
/// counter.
pub proof fn lemma_system_token_changes_one_row(
    stat: Seq<char>,
    changed: Seq<char>,
    m: int,
    line: Seq<char>,
    token: Seq<char>,
    x: u64,
)
    requires
        stat_model(stat) is Some,
        1 <= m < lines(stat).len(),
        starts_with(lines(stat)[m], cpu_tag()),
        starts_with(line, cpu_tag()),
        tokens(line) == tokens(lines(stat)[m]).update(3, token),
        u64_of(token) == Some(x),
        lines(changed) == lines(stat).update(m, line),
    ensures
        ({
            let s = stat_model(stat)->0;
            let j = row_index(stat, m);
            &&& 0 <= j < s.len()
            &&& stat_model(changed) == Some(s.update(j, s[j].update(2, x)))
        }),
{
    let ls = lines(stat);
    let ls2 = lines(changed);
    let n = ls.len() as int;
    let p = cpu_tag();
    let old_line = ls[m];
    lemma_lines_with_prefix_split(ls, 1, m, n, p);
    lemma_lines_with_prefix_split(ls, m, m + 1, n, p);
    lemma_lines_with_prefix_split(ls2, 1, m, n, p);
    lemma_lines_with_prefix_split(ls2, m, m + 1, n, p);
    assert(ls.subrange(m, m + 1).drop_last() =~= Seq::<Seq<char>>::empty());
    assert(ls2.subrange(m, m + 1).drop_last() =~= Seq::<Seq<char>>::empty());
    assert(lines_with_prefix(Seq::<Seq<char>>::empty(), p) == Seq::<Seq<char>>::empty());
    assert(lines_with_prefix(ls.subrange(m, m + 1), p) =~= seq![old_line]);
    assert(lines_with_prefix(ls2.subrange(m, m + 1), p) =~= seq![line]);
    assert(ls2.subrange(1, m) =~= ls.subrange(1, m));
    assert(ls2.subrange(m + 1, n) =~= ls.subrange(m + 1, n));
    assert(ls.drop_first() =~= ls.subrange(1, n));
    assert(ls2.drop_first() =~= ls2.subrange(1, n));
    let before = lines_with_prefix(ls.subrange(1, m), p);
    let after = lines_with_prefix(ls.subrange(m + 1, n), p);
    let rows = counter_rows(stat);
    let rows2 = counter_rows(changed);
    assert(rows == before + (seq![old_line] + after));
    assert(rows2 == before + (seq![line] + after));
    let j = before.len() as int;
    assert(rows2 =~= rows.update(j, line));
    assert(rows[j] == old_line);
    let s = stat_model(stat)->0;
    let t = tokens(old_line);
    let t2 = tokens(line);
    assert(core_fields(old_line) is Some);
    assert(forall|i: int| 1 <= i < t2.len() ==> (#[trigger] u64_of(t2[i])) is Some) by {
        assert forall|i: int| 1 <= i < t2.len() implies (#[trigger] u64_of(t2[i])) is Some by {
            if i != 3 {
                assert(t2[i] == t[i]);
                assert(u64_of(t[i]) is Some);
            }
        }
    }
    assert(core_fields(line) == Some(s[j].update(2, x))) by {
        assert(Seq::new(10, |i: int| u64_of(t2[i + 1])->0) =~= s[j].update(2, x));
    }
    assert(forall|i: int| 0 <= i < rows2.len() ==> (#[trigger] core_fields(rows2[i])) is Some)
        by {
        assert forall|i: int| 0 <= i < rows2.len() implies (#[trigger] core_fields(
            rows2[i],
        )) is Some by {
            if i != j {
                assert(rows2[i] == rows[i]);
                assert(core_fields(rows[i]) is Some);
            }
        }
    }
    assert(stat_model(changed)->0 =~= s.update(j, s[j].update(2, x)));
}

} // verus!
