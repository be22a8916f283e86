use vstd::prelude::*;

use crate::text::{
    decimal, is_ws, attr_text, attr_u64, chars_of, eq_str, lines, opt_str_view, parse_u32, parse_u32_chars,
    parse_u64, parse_u64_chars, read_attr_text, read_attr_u64, split_lines, split_words,
    starts_with, starts_with_chars, strip_all_prefix, strip_all_prefix_chars, views, words,
};

verus! {

/// The processor cores of the board.
#[derive(Debug, Clone, PartialEq, Eq)]
pub struct CpuStats {
    pub cores: Vec<CpuCore>,
    /// The mean load of the online cores, as the bits of an `f32` percentage
    /// (computed by the front end, which owns the floating-point arithmetic).
    pub total_usage_bits: u32,
}

/// One processor core.
#[derive(Debug, Clone, PartialEq, Eq)]
pub struct CpuCore {
    pub id: u32,
    pub online: bool,
    /// Idle ticks since the previous sample (zero when there is none).
    pub idle_delta: u64,
    /// All ticks since the previous sample (zero when there is none). The
    /// load is `100 * (1 - idle_delta / total_delta)`, or zero when
    /// `total_delta` is zero.
    pub total_delta: u64,
    /// Frequencies in kHz.
    pub freq_cur: u64,
    pub freq_min: u64,
    pub freq_max: u64,
    pub governor: String,
}

impl Default for CpuStats {
    fn default() -> (r: CpuStats)
        ensures
            r.cores@.len() == 0,
            r.total_usage_bits == 0,
    {
        CpuStats { cores: Vec::new(), total_usage_bits: 0 }
    }
}

/// The cumulative tick counters of one core: idle (idle plus I/O wait) and
/// total.
#[derive(Debug, Clone, Copy, PartialEq, Eq, Structural)]
pub struct CpuTimes {
    pub id: u32,
    pub idle: u64,
    pub total: u64,
}

/// The words that read as `u64`, in order.
pub open spec fn numeric_words(ws: Seq<Seq<char>>) -> Seq<u64>
    decreases ws.len(),
{
    if ws.len() == 0 {
        seq![]
    } else {
        let rest = numeric_words(ws.drop_last());
        match parse_u64(ws.last()) {
            Some(v) => rest.push(v),
            None => rest,
        }
    }
}

/// The sum of a sequence of counters.
pub open spec fn sum_u64(s: Seq<u64>) -> nat
    decreases s.len(),
{
    if s.len() == 0 {
        0
    } else {
        sum_u64(s.drop_last()) + (s.last() as nat)
    }
}

/// The core number and the counters of a per-core line of `/proc/stat`
/// ("cpuN" followed by at least four counters), or `None` for any other line.
pub open spec fn core_stat_fields(line: Seq<char>) -> Option<(u32, Seq<u64>)> {
    let parts = words(line);
    if !starts_with(line, "cpu"@) || parts.len() < 5 || parts[0] == "cpu"@ {
        None
    } else {
        match parse_u32(strip_all_prefix(parts[0], "cpu"@)) {
            None => None,
            Some(id) => {
                let values = numeric_words(parts.skip(1));
                if values.len() < 4 {
                    None
                } else {
                    Some((id, values))
                }
            },
        }
    }
}

/// Decimal digits are not white space.
proof fn lemma_decimal_no_ws(n: nat)
    ensures
        decimal(n).len() > 0,
        forall|j: int| 0 <= j < decimal(n).len() ==> !is_ws(#[trigger] decimal(n)[j]),
{
    crate::text::lemma_decimal_chars(n);
    assert forall|j: int| 0 <= j < decimal(n).len() implies !is_ws(#[trigger] decimal(n)[j]) by {
        assert(crate::text::is_digit(decimal(n)[j]));
    }
}

/// A per-core line of `/proc/stat` names its core by the whole number after
/// "cpu": the line "cpuN c0 c1 c2 c3" (N any `u32`, the counters any `u64`)
/// is core N with those four counters, idle ticks c3 and total ticks their
/// sum.
pub proof fn lemma_core_line(n: u32, c0: u64, c1: u64, c2: u64, c3: u64)
    ensures
        ({
            let line = "cpu"@ + decimal(n as nat) + " "@ + decimal(c0 as nat) + " "@ + decimal(
                c1 as nat,
            ) + " "@ + decimal(c2 as nat) + " "@ + decimal(c3 as nat);
            &&& core_stat_fields(line) == Some((n, seq![c0, c1, c2, c3]))
            &&& stat_entries(seq![line]) == seq![(n, c3 as nat, (c0 + c1 + c2 + c3) as nat)]
        }),
{
    reveal_strlit("cpu");
    reveal_strlit(" ");
    let dn = decimal(n as nat);
    let d0 = decimal(c0 as nat);
    let d1 = decimal(c1 as nat);
    let d2 = decimal(c2 as nat);
    let d3 = decimal(c3 as nat);
    lemma_decimal_no_ws(n as nat);
    lemma_decimal_no_ws(c0 as nat);
    lemma_decimal_no_ws(c1 as nat);
    lemma_decimal_no_ws(c2 as nat);
    lemma_decimal_no_ws(c3 as nat);
    crate::text::lemma_decimal_parses(n as nat);
    crate::text::lemma_decimal_parses(c0 as nat);
    crate::text::lemma_decimal_parses(c1 as nat);
    crate::text::lemma_decimal_parses(c2 as nat);
    crate::text::lemma_decimal_parses(c3 as nat);
    crate::text::lemma_decimal_chars(n as nat);
    let label = "cpu"@ + dn;
    assert forall|j: int| 0 <= j < label.len() implies !is_ws(#[trigger] label[j]) by {
        if j >= 3 {
            assert(label[j] == dn[j - 3]);
        }
    }
    let sp = seq![' '];
    let line = "cpu"@ + dn + " "@ + d0 + " "@ + d1 + " "@ + d2 + " "@ + d3;
    let r3 = d2 + sp + d3;
    let r2 = d1 + sp + r3;
    let r1 = d0 + sp + r2;
    assert(line =~= label + sp + r1);
    crate::text::lemma_words_single(d3);
    crate::text::lemma_words_cons(d2, d3);
    crate::text::lemma_words_cons(d1, r3);
    crate::text::lemma_words_cons(d0, r2);
    crate::text::lemma_words_cons(label, r1);
    let parts = words(line);
    assert(parts =~= seq![label, d0, d1, d2, d3]);
    assert(line.take(3) =~= "cpu"@);
    assert(starts_with(line, "cpu"@));
    assert(parts[0] != "cpu"@) by {
        assert(parts[0].len() != 3);
    }
    // the label loses exactly one "cpu": the number starts with a digit
    assert(label.skip(3) =~= dn);
    assert(!starts_with(dn, "cpu"@)) by {
        if starts_with(dn, "cpu"@) {
            assert(dn[0] == dn.take(3)[0]);
            assert(crate::text::is_digit(dn[0]));
        }
    }
    assert(strip_all_prefix(dn, "cpu"@) == dn);
    assert(label.take(3) =~= "cpu"@);
    assert(starts_with(label, "cpu"@));
    assert(strip_all_prefix(label, "cpu"@) == strip_all_prefix(label.skip(3), "cpu"@));
    let ws = parts.skip(1);
    assert(ws =~= seq![d0, d1, d2, d3]);
    assert(ws.drop_last() =~= seq![d0, d1, d2]);
    assert(ws.drop_last().drop_last() =~= seq![d0, d1]);
    assert(ws.drop_last().drop_last().drop_last() =~= seq![d0]);
    assert(ws.drop_last().drop_last().drop_last().drop_last() =~= Seq::<Seq<char>>::empty());
    assert(seq![d0].drop_last() =~= Seq::<Seq<char>>::empty());
    assert(numeric_words(Seq::<Seq<char>>::empty()) == Seq::<u64>::empty());
    assert(seq![d0, d1].drop_last() =~= seq![d0]);
    assert(seq![d0, d1, d2].drop_last() =~= seq![d0, d1]);
    assert(numeric_words(seq![d0]) =~= seq![c0]);
    assert(numeric_words(seq![d0, d1]) =~= seq![c0, c1]);
    assert(numeric_words(seq![d0, d1, d2]) =~= seq![c0, c1, c2]);
    assert(numeric_words(ws) =~= seq![c0, c1, c2, c3]);
    let vs = seq![c0, c1, c2, c3];
    assert(vs.drop_last() =~= seq![c0, c1, c2]);
    assert(vs.drop_last().drop_last() =~= seq![c0, c1]);
    assert(vs.drop_last().drop_last().drop_last() =~= seq![c0]);
    assert(vs.drop_last().drop_last().drop_last().drop_last() =~= Seq::<u64>::empty());
    assert(seq![c0].drop_last() =~= Seq::<u64>::empty());
    assert(seq![c0, c1].drop_last() =~= seq![c0]);
    assert(seq![c0, c1, c2].drop_last() =~= seq![c0, c1]);
    assert(sum_u64(Seq::<u64>::empty()) == 0);
    assert(sum_u64(seq![c0]) == c0);
    assert(sum_u64(seq![c0, c1]) == c0 + c1);
    assert(sum_u64(seq![c0, c1, c2]) == c0 + c1 + c2);
    assert(sum_u64(vs) == c0 + c1 + c2 + c3);
    assert(core_stat_fields(line) == Some((n, vs)));
    let ls = seq![line];
    assert(ls.drop_last() =~= Seq::<Seq<char>>::empty());
    assert(stat_entries(Seq::<Seq<char>>::empty()) == Seq::<(u32, nat, nat)>::empty());
    assert(idle_ticks(vs) == c3 as nat);
    assert(stat_entries(ls) =~= seq![(n, c3 as nat, (c0 + c1 + c2 + c3) as nat)]);
}

/// Idle ticks of a counter list: idle plus I/O wait when present.
pub open spec fn idle_ticks(values: Seq<u64>) -> nat {
    (values[3] as nat) + if values.len() > 4 {
        values[4] as nat
    } else {
        0nat
    }
}

/// The per-core entries of the lines of `/proc/stat`, in order, with
/// unbounded counters.
pub open spec fn stat_entries(ls: Seq<Seq<char>>) -> Seq<(u32, nat, nat)>
    decreases ls.len(),
{
    if ls.len() == 0 {
        seq![]
    } else {
        let rest = stat_entries(ls.drop_last());
        match core_stat_fields(ls.last()) {
            Some((id, values)) => rest.push((id, idle_ticks(values), sum_u64(values))),
            None => rest,
        }
    }
}

/// Some per-core line of the text has counters whose sum exceeds `u64`.
pub open spec fn stat_overflows(content: Seq<char>) -> bool {
    exists|i: int|
        0 <= i < stat_entries(lines(content)).len() && #[trigger] stat_entries(
            lines(content),
        )[i].2 > u64::MAX
}

/// The entry that a counter list stands for.
pub open spec fn times_of(e: (u32, nat, nat)) -> CpuTimes {
    CpuTimes { id: e.0, idle: e.1 as u64, total: e.2 as u64 }
}

proof fn lemma_sum_take(s: Seq<u64>, k: int)
    requires
        0 <= k <= s.len(),
    ensures
        sum_u64(s.take(k)) <= sum_u64(s),
    decreases s.len() - k,
{
    if k < s.len() {
        lemma_sum_take(s.drop_last(), k);
        assert(s.drop_last().take(k) =~= s.take(k));
    } else {
        assert(s.take(k) =~= s);
    }
}

proof fn lemma_sum_step(s: Seq<u64>, k: int)
    requires
        0 <= k < s.len(),
    ensures
        sum_u64(s.take(k + 1)) == sum_u64(s.take(k)) + s[k],
{
    assert(s.take(k + 1).drop_last() =~= s.take(k));
}

proof fn lemma_idle_le_sum(s: Seq<u64>)
    requires
        s.len() >= 4,
    ensures
        idle_ticks(s) <= sum_u64(s),
{
    lemma_sum_step(s, 3);
    if s.len() > 4 {
        lemma_sum_step(s, 4);
        lemma_sum_take(s, 5);
    } else {
        lemma_sum_take(s, 4);
    }
}

/// The counters of a list of words that read as `u64`.
fn numeric_words_exec(ws: &Vec<Vec<char>>, start: usize) -> (r: Vec<u64>)
    requires
        start <= ws.len(),
    ensures
        r@ == numeric_words(views(ws@).skip(start as int)),
{
    let ghost all = views(ws@).skip(start as int);
    let mut r: Vec<u64> = Vec::new();
    let mut i = start;
    proof {
        assert(all.take(0) =~= seq![]);
    }
    while i < ws.len()
        invariant
            start <= i <= ws.len(),
            all == views(ws@).skip(start as int),
            r@ == numeric_words(all.take(i - start)),
        decreases ws.len() - i,
    {
        let v = parse_u64_chars(&ws[i]);
        proof {
            assert(all.take(i - start + 1).drop_last() =~= all.take(i - start));
            assert(all.take(i - start + 1).last() == ws@[i as int]@);
        }
        if let Some(x) = v {
            r.push(x);
        }
        i = i + 1;
    }
    proof {
        assert(all.take(i - start) =~= all);
    }
    r
}

/// The sum of the counters, or `None` when it exceeds `u64`.
fn sum_checked(s: &Vec<u64>) -> (r: Option<u64>)
    ensures
        match r {
            Some(v) => v == sum_u64(s@),
            None => sum_u64(s@) > u64::MAX,
        },
{
    let mut acc: u64 = 0;
    let mut i: usize = 0;
    proof {
        assert(s@.take(0) =~= seq![]);
    }
    while i < s.len()
        invariant
            i <= s.len(),
            acc == sum_u64(s@.take(i as int)),
        decreases s.len() - i,
    {
        proof {
            assert(s@.take(i + 1).drop_last() =~= s@.take(i as int));
        }
        match acc.checked_add(s[i]) {
            Some(v) => {
                acc = v;
            },
            None => {
                proof {
                    lemma_sum_take(s@, i + 1);
                }
                return None;
            },
        }
        i = i + 1;
    }
    proof {
        assert(s@.take(i as int) =~= s@);
    }
    Some(acc)
}

/// The core number, idle ticks and total ticks of a per-core line.
fn core_stat_entry(line: &Vec<char>) -> (r: Option<Option<CpuTimes>>)
    ensures
        match core_stat_fields(line@) {
            None => r == Some(None::<CpuTimes>),
            Some((id, values)) => if sum_u64(values) > u64::MAX {
                r is None
            } else {
                r == Some(
                    Some(times_of((id, idle_ticks(values), sum_u64(values)))),
                )
            },
        },
        r matches Some(Some(t)) ==> t.idle <= t.total,
{
    let prefix = chars_of("cpu");
    if !starts_with_chars(line, &prefix) {
        return Some(None);
    }
    let parts = split_words(line);
    proof {
        assert(views(parts@).len() == parts@.len());
    }
    if parts.len() < 5 {
        return Some(None);
    }
    proof {
        assert(views(parts@)[0] == parts@[0]@);
    }
    if eq_str(&parts[0], "cpu") {
        return Some(None);
    }
    let label = strip_all_prefix_chars(&parts[0], &prefix);
    let id = match parse_u32_chars(&label) {
        Some(id) => id,
        None => {
            return Some(None);
        },
    };
    let values = numeric_words_exec(&parts, 1);
    if values.len() < 4 {
        return Some(None);
    }
    let total = match sum_checked(&values) {
        Some(t) => t,
        None => {
            return None;
        },
    };
    proof {
        lemma_idle_le_sum(values@);
    }
    let iowait: u64 = if values.len() > 4 {
        values[4]
    } else {
        0
    };
    let idle = values[3] + iowait;
    Some(Some(CpuTimes { id, idle, total }))
}

/// The per-core tick counters of the contents of `/proc/stat`, one entry per
/// per-core line in order (a later line for the same core overrides an
/// earlier one on lookup); `None` exactly when the counters of such a line
/// sum past `u64::MAX`.
pub fn parse_proc_stat(content: &str) -> (r: Option<Vec<CpuTimes>>)
    ensures
        r is None <==> stat_overflows(content@),
        r matches Some(v) ==> v@ == stat_entries(lines(content@)).map_values(
            |e: (u32, nat, nat)| times_of(e),
        ),
        r matches Some(v) ==> forall|i: int| 0 <= i < v.len() ==> (#[trigger] v[i]).idle <= v[i].total,
{
    let cs = chars_of(content);
    let ls = split_lines(&cs);
    let ghost all = lines(content@);
    let mut out: Vec<CpuTimes> = Vec::new();
    let mut i: usize = 0;
    proof {
        assert(all.take(0) =~= seq![]);
        assert(views(ls@).len() == ls@.len());
    }
    while i < ls.len()
        invariant
            i <= ls.len(),
            all == lines(content@),
            views(ls@) == all,
            out@ == stat_entries(all.take(i as int)).map_values(|e: (u32, nat, nat)| times_of(e)),
            forall|j: int|
                0 <= j < stat_entries(all.take(i as int)).len() ==> #[trigger] stat_entries(
                    all.take(i as int),
                )[j].2 <= u64::MAX,
            forall|j: int| 0 <= j < out.len() ==> (#[trigger] out[j]).idle <= out[j].total,
        decreases ls.len() - i,
    {
        let ghost before = stat_entries(all.take(i as int));
        proof {
            assert(all.take(i + 1).drop_last() =~= all.take(i as int));
            assert(all.take(i + 1).last() == ls@[i as int]@);
        }
        match core_stat_entry(&ls[i]) {
            None => {
                proof {
                    let after = stat_entries(all.take(i + 1));
                    let f = core_stat_fields(ls@[i as int]@);
                    assert(f is Some);
                    let (fid, values) = f.unwrap();
                    assert(after == before.push((fid, idle_ticks(values), sum_u64(values))));
                    assert(after.last().2 > u64::MAX);
                    lemma_stat_entries_prefix(all, i + 1);
                    assert(stat_overflows(content@)) by {
                        assert(stat_entries(all).take(after.len() as int) == after);
                        assert(stat_entries(all)[after.len() - 1] == after[after.len() - 1]);
                    }
                }
                return None;
            },
            Some(None) => {},
            Some(Some(t)) => {
                out.push(t);
            },
        }
        i = i + 1;
        proof {
            assert(out@ =~= stat_entries(all.take(i as int)).map_values(
                |e: (u32, nat, nat)| times_of(e),
            ));
        }
    }
    proof {
        assert(all.take(i as int) =~= all);
    }
    Some(out)
}

/// `stat_entries` of a prefix of the lines is a prefix of the entries.
proof fn lemma_stat_entries_prefix(ls: Seq<Seq<char>>, k: int)
    requires
        0 <= k <= ls.len(),
    ensures
        stat_entries(ls.take(k)).len() <= stat_entries(ls).len(),
        stat_entries(ls).take(stat_entries(ls.take(k)).len() as int) == stat_entries(ls.take(k)),
    decreases ls.len() - k,
{
    if k < ls.len() {
        lemma_stat_entries_prefix(ls.drop_last(), k);
        assert(ls.drop_last().take(k) =~= ls.take(k));
        let a = stat_entries(ls.take(k));
        let b = stat_entries(ls.drop_last());
        assert(stat_entries(ls).take(a.len() as int) =~= b.take(a.len() as int));
    } else {
        assert(ls.take(k) =~= ls);
        assert(stat_entries(ls).take(stat_entries(ls).len() as int) =~= stat_entries(ls));
    }
}


/// The last entry for a core (a map from core to counters, later entries
/// overriding earlier ones).
pub open spec fn lookup_times(entries: Seq<CpuTimes>, id: u32) -> Option<CpuTimes>
    decreases entries.len(),
{
    if entries.len() == 0 {
        None
    } else if entries.last().id == id {
        Some(entries.last())
    } else {
        lookup_times(entries.drop_last(), id)
    }
}

/// `lookup_times` on a vector.
pub fn find_times(entries: &Vec<CpuTimes>, id: u32) -> (r: Option<CpuTimes>)
    ensures
        r == lookup_times(entries@, id),
{
    let mut i = entries.len();
    assert(entries@.take(i as int) =~= entries@);
    while i > 0
        invariant
            i <= entries.len(),
            lookup_times(entries@, id) == lookup_times(entries@.take(i as int), id),
        decreases i,
    {
        proof {
            assert(entries@.take(i as int).drop_last() =~= entries@.take(i - 1));
        }
        if entries[i - 1].id == id {
            return Some(entries[i - 1]);
        }
        i = i - 1;
    }
    None
}

pub open spec fn sat_sub(a: u64, b: u64) -> u64 {
    if a >= b {
        (a - b) as u64
    } else {
        0
    }
}

/// The idle and total ticks of a core between two samples: zero when either
/// sample lacks the core, and never below zero.
pub open spec fn tick_deltas(current: Seq<CpuTimes>, previous: Seq<CpuTimes>, id: u32) -> (u64, u64) {
    match lookup_times(current, id) {
        Some(c) => match lookup_times(previous, id) {
            Some(p) => (sat_sub(c.idle, p.idle), sat_sub(c.total, p.total)),
            None => (0, 0),
        },
        None => (0, 0),
    }
}

/// One core, from the contents of its sysfs files (`None` for a file that
/// could not be read) and the two latest samples of `/proc/stat`. Core 0 is
/// always online; another core is online when its `online` file holds a
/// non-zero number.
pub fn cpu_core(
    id: u32,
    online: Option<&str>,
    freq_cur: Option<&str>,
    freq_min: Option<&str>,
    freq_max: Option<&str>,
    governor: Option<&str>,
    current: &Vec<CpuTimes>,
    previous: &Vec<CpuTimes>,
) -> (r: CpuCore)
    ensures
        r.id == id,
        r.online == (id == 0 || attr_u64(opt_str_view(online)) != 0),
        r.freq_cur == attr_u64(opt_str_view(freq_cur)),
        r.freq_min == attr_u64(opt_str_view(freq_min)),
        r.freq_max == attr_u64(opt_str_view(freq_max)),
        r.governor@ == attr_text(opt_str_view(governor)),
        (r.idle_delta, r.total_delta) == tick_deltas(current@, previous@, id),
{
    let on = if id == 0 {
        true
    } else {
        read_attr_u64(online) != 0
    };
    let (idle_delta, total_delta) = match find_times(current, id) {
        Some(c) => match find_times(previous, id) {
            Some(p) => (c.idle.saturating_sub(p.idle), c.total.saturating_sub(p.total)),
            None => (0, 0),
        },
        None => (0, 0),
    };
    CpuCore {
        id,
        online: on,
        idle_delta,
        total_delta,
        freq_cur: read_attr_u64(freq_cur),
        freq_min: read_attr_u64(freq_min),
        freq_max: read_attr_u64(freq_max),
        governor: read_attr_text(governor),
    }
}


/// The first core at or after `i` that is online and names its governor.
pub open spec fn first_governed(cores: Seq<CpuCore>, i: int) -> Option<int>
    decreases cores.len() - i,
{
    if !(0 <= i < cores.len()) {
        None
    } else if cores[i].online && cores[i].governor@.len() > 0 {
        Some(i)
    } else {
        first_governed(cores, i + 1)
    }
}

/// The governor shown for the processor: that of the first online core that
/// names one, else "unknown".
pub open spec fn shown_governor(cores: Seq<CpuCore>) -> Seq<char> {
    match first_governed(cores, 0) {
        Some(i) => cores[i].governor@,
        None => "unknown"@,
    }
}

/// The governor shown for the processor (see `shown_governor`).
pub fn cpu_governor(cores: &Vec<CpuCore>) -> (r: String)
    ensures
        r@ == shown_governor(cores@),
{
    let mut i: usize = 0;
    while i < cores.len()
        invariant
            i <= cores.len(),
            first_governed(cores@, 0) == first_governed(cores@, i as int),
        decreases cores.len() - i,
    {
        if cores[i].online && !cores[i].governor.as_str().is_empty() {
            return cores[i].governor.clone();
        }
        i = i + 1;
    }
    String::from_str("unknown")
}

} // verus!
