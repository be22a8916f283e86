use vstd::prelude::*;

use crate::hardware::cpu::{numeric_words, sat_sub, sum_u64};
use crate::text::{
    chars_of, decimal, find_char_first, find_char_from, lines, parse_u32, parse_u32_chars, parse_u64,
    parse_u64_chars, push_decimal, slice_of, split_chars, split_char, split_lines, split_words,
    starts_with, starts_with_chars, string_of, views, words,
};

verus! {

/// A process of the board.
#[derive(Debug, Clone, PartialEq, Eq)]
pub struct ProcessInfo {
    pub pid: u32,
    pub name: String,
    /// Processor share in percent, as the bits of the `f32` that the front
    /// end computes from the tick counters.
    pub cpu_usage_bits: u32,
    /// Resident memory in bytes.
    pub mem_usage: u64,
    /// Graphics share, as the bits of an `f32` percentage; the kernel does not
    /// report it per process, so the monitor leaves it out.
    pub gpu_usage_bits: Option<u32>,
    pub state: String,
    pub user: String,
}

/// The sum of the counters on the aggregate "cpu " line of `/proc/stat`
/// (the first one), or 1 when there is no such line.
pub open spec fn system_total(content: Seq<char>) -> nat {
    system_total_of(lines(content))
}

pub open spec fn system_total_of(ls: Seq<Seq<char>>) -> nat
    decreases ls.len(),
{
    if ls.len() == 0 {
        1
    } else if starts_with(ls[0], "cpu "@) {
        sum_u64(numeric_words(words(ls[0]).skip(1)))
    } else {
        system_total_of(ls.drop_first())
    }
}

fn sum_of_numeric_words(ws: &Vec<Vec<char>>) -> (r: Option<u64>)
    requires
        ws.len() >= 1,
    ensures
        match r {
            Some(v) => v == sum_u64(numeric_words(views(ws@).skip(1))),
            None => sum_u64(numeric_words(views(ws@).skip(1))) > u64::MAX,
        },
{
    let ghost all = views(ws@).skip(1);
    let mut acc: u64 = 0;
    let mut i: usize = 1;
    proof {
        assert(all.take(0) =~= seq![]);
    }
    while i < ws.len()
        invariant
            1 <= i <= ws.len(),
            all == views(ws@).skip(1),
            acc == sum_u64(numeric_words(all.take(i - 1))),
        decreases ws.len() - i,
    {
        proof {
            assert(all.take(i - 1 + 1).drop_last() =~= all.take(i - 1));
            assert(all.take(i - 1 + 1).last() == ws@[i as int]@);
        }
        if let Some(v) = parse_u64_chars(&ws[i]) {
            proof {
                let p = numeric_words(all.take(i - 1));
                assert(p.push(v).drop_last() =~= p);
            }
            match acc.checked_add(v) {
                Some(s) => {
                    acc = s;
                },
                None => {
                    proof {
                        lemma_numeric_sum_prefix(all, i as int);
                    }
                    return None;
                },
            }
        }
        i = i + 1;
    }
    proof {
        assert(all.take(i - 1) =~= all);
    }
    Some(acc)
}

/// The sums of the numbers of growing prefixes of a word list never
/// decrease.
proof fn lemma_numeric_sum_prefix(ws: Seq<Seq<char>>, k: int)
    requires
        0 <= k <= ws.len(),
    ensures
        sum_u64(numeric_words(ws.take(k))) <= sum_u64(numeric_words(ws)),
    decreases ws.len() - k,
{
    if k < ws.len() {
        lemma_numeric_sum_prefix(ws.drop_last(), k);
        assert(ws.drop_last().take(k) =~= ws.take(k));
        let p = numeric_words(ws.drop_last());
        match parse_u64(ws.last()) {
            Some(v) => {
                assert(p.push(v).drop_last() =~= p);
            },
            None => {},
        }
    } else {
        assert(ws.take(k) =~= ws);
    }
}

/// The total ticks of the system from the contents of `/proc/stat` (see
/// `system_total`); `None` exactly when that sum exceeds `u64`.
pub fn parse_system_total(content: &str) -> (r: Option<u64>)
    ensures
        match r {
            Some(v) => v == system_total(content@),
            None => system_total(content@) > u64::MAX,
        },
{
    let ls = split_lines(&chars_of(content));
    let prefix = chars_of("cpu ");
    let ghost all = lines(content@);
    let mut i: usize = 0;
    proof {
        assert(views(ls@).len() == ls@.len());
        assert(all.skip(0) =~= all);
    }
    while i < ls.len()
        invariant
            i <= ls.len(),
            views(ls@) == all,
            all == lines(content@),
            prefix@ == "cpu "@,
            system_total_of(all) == system_total_of(all.skip(i as int)),
        decreases ls.len() - i,
    {
        proof {
            assert(all.skip(i as int)[0] == ls@[i as int]@);
            assert(all.skip(i as int).drop_first() =~= all.skip(i + 1));
        }
        if starts_with_chars(&ls[i], &prefix) {
            let ws = split_words(&ls[i]);
            proof {
                assert(views(ws@).len() == ws@.len());
                reveal_strlit("cpu ");
                crate::text::lemma_words_nonempty_of_start(ls@[i as int]@, "cpu "@);
            }
            return sum_of_numeric_words(&ws);
        }
        i = i + 1;
    }
    Some(1)
}


/// What the monitor reads from `/proc/{pid}/stat`.
#[derive(Debug, Clone, PartialEq, Eq)]
pub struct PidStat {
    /// The command name (between the first '(' and the last ')').
    pub comm: String,
    pub state: String,
    pub utime: u64,
    pub stime: u64,
}

/// The counter in the given field after the command name, zero when it is
/// missing or not a number.
pub open spec fn field_u64(w: Seq<Seq<char>>, i: int) -> u64 {
    if 0 <= i < w.len() && parse_u64(w[i]) is Some {
        parse_u64(w[i]).unwrap()
    } else {
        0
    }
}

/// The command name, state, user time and system time in the contents of
/// `/proc/{pid}/stat`: the name between the first '(' and the last ')', and,
/// from the words after the character that follows the ')', the state
/// (first word) and the times (twelfth and thirteenth words). `None` when
/// there is no '(' or no ')', when the ')' stands before the '(', or when
/// no single-byte character follows the ')' (nothing comes after it).
pub open spec fn pid_stat_spec(s: Seq<char>) -> Option<(Seq<char>, Seq<char>, u64, u64)> {
    match find_char_from(s, '(', 0) {
        None => None,
        Some(o) => match crate::text::rfind_char(s, ')') {
            None => None,
            Some(c) => if c < o || c + 1 >= s.len() || (s[c + 1] as u32) >= 0x80 {
                None
            } else {
                let w = words(s.skip(c + 2));
                Some(
                    (
                        s.subrange(o + 1, c),
                        if w.len() > 0 {
                            w[0]
                        } else {
                            seq![]
                        },
                        field_u64(w, 11),
                        field_u64(w, 12),
                    ),
                )
            },
        },
    }
}

fn field_u64_exec(w: &Vec<Vec<char>>, i: usize) -> (r: u64)
    ensures
        r == field_u64(views(w@), i as int),
{
    if i < w.len() {
        proof {
            assert(views(w@)[i as int] == w@[i as int]@);
        }
        match parse_u64_chars(&w[i]) {
            Some(v) => v,
            None => 0,
        }
    } else {
        0
    }
}

/// Reads `/proc/{pid}/stat` (see `pid_stat_spec`).
pub fn parse_pid_stat(content: &str) -> (r: Option<PidStat>)
    ensures
        match pid_stat_spec(content@) {
            None => r is None,
            Some((comm, state, utime, stime)) => r matches Some(p) && p.comm@ == comm
                && p.state@ == state && p.utime == utime && p.stime == stime,
        },
{
    let v = chars_of(content);
    let o = match find_char_first(&v, '(') {
        Some(o) => o,
        None => {
            return None;
        },
    };
    let c = match crate::text::rfind_char_exec(&v, ')') {
        Some(c) => c,
        None => {
            return None;
        },
    };
    proof {
        crate::text::lemma_find_char_from_range(v@, '(', 0);
        crate::text::lemma_rfind_char_range(v@, ')');
    }
    if c < o || c + 1 >= v.len() || (v[c + 1] as u32) >= 0x80 {
        return None;
    }
    let comm = slice_of(&v, o + 1, c);
    let rest = slice_of(&v, c + 2, v.len());
    assert(rest@ =~= v@.skip(c + 2));
    let w = split_words(&rest);
    proof {
        assert(views(w@).len() == w@.len());
    }
    let state = if w.len() > 0 {
        proof {
            assert(views(w@)[0] == w@[0]@);
        }
        string_of(w[0].as_slice())
    } else {
        String::new()
    };
    let utime = field_u64_exec(&w, 11);
    let stime = field_u64_exec(&w, 12);
    Some(PidStat { comm: string_of(comm.as_slice()), state, utime, stime })
}

/// The resident size in kB that `/proc/{pid}/status` reports: the second
/// word of the last "VmRSS:" line (zero when missing or not a number), or
/// zero without such a line.
pub open spec fn status_vmrss(ls: Seq<Seq<char>>) -> u64
    decreases ls.len(),
{
    if ls.len() == 0 {
        0
    } else if starts_with(ls.last(), "VmRSS:"@) {
        field_u64(words(ls.last()), 1)
    } else {
        status_vmrss(ls.drop_last())
    }
}

/// The real user id that `/proc/{pid}/status` reports, in the same way from
/// the last "Uid:" line.
pub open spec fn status_uid(ls: Seq<Seq<char>>) -> u32
    decreases ls.len(),
{
    if ls.len() == 0 {
        0
    } else if starts_with(ls.last(), "Uid:"@) && !starts_with(ls.last(), "VmRSS:"@) {
        let w = words(ls.last());
        if w.len() > 1 && parse_u32(w[1]) is Some {
            parse_u32(w[1]).unwrap()
        } else {
            0
        }
    } else {
        status_uid(ls.drop_last())
    }
}

/// Reads `/proc/{pid}/status`: the resident size in bytes and the user id;
/// `None` exactly when the size in bytes exceeds `u64`.
pub fn parse_proc_status(content: &str) -> (r: Option<(u64, u32)>)
    ensures
        status_vmrss(lines(content@)) * 1024 > u64::MAX <==> r is None,
        r matches Some((bytes, uid)) ==> bytes == status_vmrss(lines(content@)) * 1024 && uid
            == status_uid(lines(content@)),
{
    let ls = split_lines(&chars_of(content));
    let vm = chars_of("VmRSS:");
    let ui = chars_of("Uid:");
    let ghost all = lines(content@);
    let mut vmrss: u64 = 0;
    let mut uid: u32 = 0;
    let mut i: usize = 0;
    proof {
        assert(views(ls@).len() == ls@.len());
        assert(all.take(0) =~= seq![]);
    }
    while i < ls.len()
        invariant
            i <= ls.len(),
            views(ls@) == all,
            all == lines(content@),
            vm@ == "VmRSS:"@,
            ui@ == "Uid:"@,
            vmrss == status_vmrss(all.take(i as int)),
            uid == status_uid(all.take(i as int)),
        decreases ls.len() - i,
    {
        proof {
            assert(all.take(i + 1).drop_last() =~= all.take(i as int));
            assert(all.take(i + 1).last() == ls@[i as int]@);
        }
        if starts_with_chars(&ls[i], &vm) {
            let w = split_words(&ls[i]);
            vmrss = field_u64_exec(&w, 1);
        } else if starts_with_chars(&ls[i], &ui) {
            let w = split_words(&ls[i]);
            proof {
                assert(views(w@).len() == w@.len());
            }
            uid = if w.len() > 1 {
                proof {
                    assert(views(w@)[1] == w@[1]@);
                }
                match parse_u32_chars(&w[1]) {
                    Some(v) => v,
                    None => 0,
                }
            } else {
                0
            };
        }
        i = i + 1;
    }
    proof {
        assert(all.take(i as int) =~= all);
    }
    if vmrss > u64::MAX / 1024 {
        return None;
    }
    Some((vmrss * 1024, uid))
}


/// A user of `/etc/passwd`.
#[derive(Debug, Clone, PartialEq, Eq)]
pub struct UserEntry {
    pub uid: u32,
    pub name: String,
}

/// The user that a line of `/etc/passwd` names: its first field, when the
/// line has at least three ':'-separated fields and the third reads as a
/// `u32`.
pub open spec fn passwd_entry(line: Seq<char>) -> Option<(u32, Seq<char>)> {
    let parts = split_char(line, ':');
    if parts.len() >= 3 && parse_u32(parts[2]) is Some {
        Some((parse_u32(parts[2]).unwrap(), parts[0]))
    } else {
        None
    }
}

/// A line of `/etc/passwd` names the user by its first field and gives the
/// user's id in its third: for a name and a password field free of ':',
/// followed by the decimal id and then anything at all (the group id and
/// the other fields), the entry is that id with that name.
pub proof fn lemma_passwd_entry_uid(name: Seq<char>, password: Seq<char>, uid: u32, rest: Seq<char>)
    requires
        forall|j: int| 0 <= j < name.len() ==> #[trigger] name[j] != ':',
        forall|j: int| 0 <= j < password.len() ==> #[trigger] password[j] != ':',
    ensures
        passwd_entry(name + ":"@ + password + ":"@ + decimal(uid as nat) + ":"@ + rest) == Some(
            (uid, name),
        ),
{
    reveal_strlit(":");
    let d = decimal(uid as nat);
    crate::text::lemma_decimal_chars(uid as nat);
    crate::text::lemma_decimal_parses(uid as nat);
    assert forall|j: int| 0 <= j < d.len() implies #[trigger] d[j] != ':' by {
        assert(crate::text::is_digit(d[j]));
    }
    let line = name + ":"@ + password + ":"@ + d + ":"@ + rest;
    let tail2 = d + seq![':'] + rest;
    let tail1 = password + seq![':'] + tail2;
    assert(line =~= name + seq![':'] + tail1);
    crate::text::lemma_split_char_cons(name, ':', tail1);
    crate::text::lemma_split_char_cons(password, ':', tail2);
    crate::text::lemma_split_char_cons(d, ':', rest);
    let parts = split_char(line, ':');
    assert(parts == seq![name] + (seq![password] + (seq![d] + split_char(rest, ':'))));
    crate::text::lemma_split_char_first(rest, ':');
    assert(parts.len() >= 3);
    assert(parts[0] == name);
    assert(parts[2] == d);
}

/// The users of the lines of `/etc/passwd`, in order.
pub open spec fn passwd_entries(ls: Seq<Seq<char>>) -> Seq<(u32, Seq<char>)>
    decreases ls.len(),
{
    if ls.len() == 0 {
        seq![]
    } else {
        let rest = passwd_entries(ls.drop_last());
        match passwd_entry(ls.last()) {
            Some(e) => rest.push(e),
            None => rest,
        }
    }
}

pub open spec fn entry_view(e: UserEntry) -> (u32, Seq<char>) {
    (e.uid, e.name@)
}

/// The users named by the contents of `/etc/passwd`, in order (a later
/// entry for the same id overrides an earlier one on lookup).
pub fn parse_passwd(content: &str) -> (r: Vec<UserEntry>)
    ensures
        r@.map_values(|e: UserEntry| entry_view(e)) == passwd_entries(lines(content@)),
{
    let ls = split_lines(&chars_of(content));
    let ghost all = lines(content@);
    let mut r: Vec<UserEntry> = Vec::new();
    let mut i: usize = 0;
    proof {
        assert(views(ls@).len() == ls@.len());
        assert(all.take(0) =~= seq![]);
        assert(r@.map_values(|e: UserEntry| entry_view(e)) =~= seq![]);
    }
    while i < ls.len()
        invariant
            i <= ls.len(),
            views(ls@) == all,
            all == lines(content@),
            r@.map_values(|e: UserEntry| entry_view(e)) == passwd_entries(all.take(i as int)),
        decreases ls.len() - i,
    {
        proof {
            assert(all.take(i + 1).drop_last() =~= all.take(i as int));
            assert(all.take(i + 1).last() == ls@[i as int]@);
        }
        let parts = split_chars(&ls[i], ':');
        proof {
            assert(views(parts@).len() == parts@.len());
        }
        if parts.len() >= 3 {
            proof {
                assert(views(parts@)[0] == parts@[0]@);
                assert(views(parts@)[2] == parts@[2]@);
            }
            if let Some(uid) = parse_u32_chars(&parts[2]) {
                let e = UserEntry { uid, name: string_of(parts[0].as_slice()) };
                let ghost before = r@;
                r.push(e);
                proof {
                    assert(r@.map_values(|e: UserEntry| entry_view(e)) =~= before.map_values(
                        |e: UserEntry| entry_view(e),
                    ).push(entry_view(e)));
                }
            }
        }
        i = i + 1;
    }
    proof {
        assert(all.take(i as int) =~= all);
    }
    r
}

/// The name of a user id: the last entry for it, or the id in decimal.
pub open spec fn user_name_of(entries: Seq<UserEntry>, uid: u32) -> Seq<char>
    decreases entries.len(),
{
    if entries.len() == 0 {
        decimal(uid as nat)
    } else if entries.last().uid == uid {
        entries.last().name@
    } else {
        user_name_of(entries.drop_last(), uid)
    }
}

/// The name of a user id (see `user_name_of`).
pub fn user_name(entries: &Vec<UserEntry>, uid: u32) -> (r: String)
    ensures
        r@ == user_name_of(entries@, uid),
{
    let mut i = entries.len();
    assert(entries@.take(i as int) =~= entries@);
    while i > 0
        invariant
            i <= entries.len(),
            user_name_of(entries@, uid) == user_name_of(entries@.take(i as int), uid),
        decreases i,
    {
        proof {
            assert(entries@.take(i as int).drop_last() =~= entries@.take(i - 1));
        }
        if entries[i - 1].uid == uid {
            return entries[i - 1].name.clone();
        }
        i = i - 1;
    }
    let mut v: Vec<char> = Vec::new();
    push_decimal(&mut v, uid as u64);
    assert(v@ =~= decimal(uid as nat));
    string_of(v.as_slice())
}

/// The process and system tick counters of a process at one sample.
#[derive(Debug, Clone, Copy, PartialEq, Eq, Structural)]
pub struct ProcTicks {
    pub pid: u32,
    pub ticks: u64,
    pub system_total: u64,
}

/// The last sample of a process.
pub open spec fn lookup_ticks(entries: Seq<ProcTicks>, pid: u32) -> Option<ProcTicks>
    decreases entries.len(),
{
    if entries.len() == 0 {
        None
    } else if entries.last().pid == pid {
        Some(entries.last())
    } else {
        lookup_ticks(entries.drop_last(), pid)
    }
}

/// A process's new sample and the process and system ticks since its
/// previous one (both zero when there is none).
#[derive(Debug, Clone, Copy, PartialEq, Eq, Structural)]
pub struct ProcDelta {
    pub sample: ProcTicks,
    pub proc_ticks: u64,
    pub system_ticks: u64,
}

/// The sample of a process from its user and system times and the system
/// total, with the ticks since its previous sample; `None` exactly when the
/// process's ticks exceed `u64`. Its processor share is
/// `100 * proc_ticks / system_ticks` when `system_ticks` is not zero, else
/// zero.
pub fn process_delta(previous: &Vec<ProcTicks>, pid: u32, utime: u64, stime: u64, system_total: u64) -> (r: Option<ProcDelta>)
    ensures
        r is None <==> utime + stime > u64::MAX,
        r matches Some(d) ==> {
            &&& d.sample == (ProcTicks { pid, ticks: (utime + stime) as u64, system_total })
            &&& match lookup_ticks(previous@, pid) {
                Some(p) => d.proc_ticks == sat_sub(d.sample.ticks, p.ticks) && d.system_ticks
                    == sat_sub(system_total, p.system_total),
                None => d.proc_ticks == 0 && d.system_ticks == 0,
            }
        },
{
    let ticks = match utime.checked_add(stime) {
        Some(t) => t,
        None => {
            return None;
        },
    };
    let sample = ProcTicks { pid, ticks, system_total };
    let mut i = previous.len();
    assert(previous@.take(i as int) =~= previous@);
    while i > 0
        invariant
            i <= previous.len(),
            ticks == utime + stime,
            sample == (ProcTicks { pid, ticks, system_total }),
            lookup_ticks(previous@, pid) == lookup_ticks(previous@.take(i as int), pid),
        decreases i,
    {
        proof {
            assert(previous@.take(i as int).drop_last() =~= previous@.take(i - 1));
        }
        if previous[i - 1].pid == pid {
            let p = previous[i - 1];
            return Some(
                ProcDelta {
                    sample,
                    proc_ticks: ticks.saturating_sub(p.ticks),
                    system_ticks: system_total.saturating_sub(p.system_total),
                },
            );
        }
        i = i - 1;
    }
    Some(ProcDelta { sample, proc_ticks: 0, system_ticks: 0 })
}

/// How many processes the monitor lists.
pub const MAX_PROCESSES: usize = 20;

/// The processes with a given share (by the bits of their `f32` share), in
/// order.
pub open spec fn with_share(s: Seq<ProcessInfo>, k: u32) -> Seq<ProcessInfo>
    decreases s.len(),
{
    if s.len() == 0 {
        seq![]
    } else {
        let r = with_share(s.drop_last(), k);
        if s.last().cpu_usage_bits == k {
            r.push(s.last())
        } else {
            r
        }
    }
}

/// The processes are listed by share, largest first.
pub open spec fn shares_descending(s: Seq<ProcessInfo>) -> bool {
    forall|i: int, j: int|
        0 <= i < j < s.len() ==> (#[trigger] s[i]).cpu_usage_bits >= (#[trigger] s[j]).cpu_usage_bits
}

/// `out` lists the processes of `input` by share, largest first, processes
/// with the same share in their order in `input`: a stable sort.
pub open spec fn is_share_order(out: Seq<ProcessInfo>, input: Seq<ProcessInfo>) -> bool {
    &&& shares_descending(out)
    &&& forall|k: u32| #[trigger] with_share(out, k) == with_share(input, k)
}

proof fn lemma_with_share_add(a: Seq<ProcessInfo>, b: Seq<ProcessInfo>, k: u32)
    ensures
        with_share(a + b, k) == with_share(a, k) + with_share(b, k),
    decreases b.len(),
{
    if b.len() == 0 {
        assert(a + b =~= a);
        assert(with_share(a, k) + with_share(b, k) =~= with_share(a, k));
    } else {
        lemma_with_share_add(a, b.drop_last(), k);
        assert((a + b).drop_last() =~= a + b.drop_last());
        assert((a + b).last() == b.last());
        if b.last().cpu_usage_bits == k {
            assert(with_share(a, k) + with_share(b, k) =~= (with_share(a, k) + with_share(
                b.drop_last(),
                k,
            )).push(b.last()));
        }
    }
}

proof fn lemma_with_share_none(s: Seq<ProcessInfo>, k: u32)
    requires
        forall|i: int| 0 <= i < s.len() ==> (#[trigger] s[i]).cpu_usage_bits != k,
    ensures
        with_share(s, k) == Seq::<ProcessInfo>::empty(),
    decreases s.len(),
{
    if s.len() > 0 {
        lemma_with_share_none(s.drop_last(), k);
    }
}

/// A process of a share class is a process of the list.
proof fn lemma_with_share_member(s: Seq<ProcessInfo>, k: u32)
    requires
        with_share(s, k).len() > 0,
    ensures
        exists|i: int| 0 <= i < s.len() && (#[trigger] s[i]).cpu_usage_bits == k,
    decreases s.len(),
{
    if s.last().cpu_usage_bits != k {
        lemma_with_share_member(s.drop_last(), k);
        let i = choose|i: int| 0 <= i < s.drop_last().len() && (#[trigger] s.drop_last()[i]).cpu_usage_bits == k;
        assert(s[i] == s.drop_last()[i]);
    } else {
        assert(s[s.len() - 1].cpu_usage_bits == k);
    }
}

proof fn lemma_insert_keeps_share_order(s: Seq<ProcessInfo>, x: ProcessInfo, p: int)
    requires
        shares_descending(s),
        0 <= p <= s.len(),
        forall|i: int| 0 <= i < p ==> (#[trigger] s[i]).cpu_usage_bits >= x.cpu_usage_bits,
        forall|i: int| p <= i < s.len() ==> (#[trigger] s[i]).cpu_usage_bits < x.cpu_usage_bits,
    ensures
        shares_descending(s.take(p) + seq![x] + s.skip(p)),
        forall|k: u32|
            #[trigger] with_share(s.take(p) + seq![x] + s.skip(p), k) == if k == x.cpu_usage_bits {
                with_share(s, k).push(x)
            } else {
                with_share(s, k)
            },
{
    let n = s.take(p) + seq![x] + s.skip(p);
    assert forall|i: int, j: int| 0 <= i < j < n.len() implies (#[trigger] n[i]).cpu_usage_bits
        >= (#[trigger] n[j]).cpu_usage_bits by {
        if j < p {
            assert(n[i] == s[i] && n[j] == s[j]);
        } else if j == p {
            assert(n[i] == s[i]);
        } else if i < p {
            assert(n[i] == s[i] && n[j] == s[j - 1]);
        } else if i == p {
            assert(n[j] == s[j - 1]);
        } else {
            assert(n[i] == s[i - 1] && n[j] == s[j - 1]);
        }
    }
    assert(s.take(p) + s.skip(p) =~= s);
    assert forall|k: u32| #[trigger]
        with_share(n, k) == if k == x.cpu_usage_bits {
            with_share(s, k).push(x)
        } else {
            with_share(s, k)
        } by {
        let a = s.take(p);
        let b = s.skip(p);
        lemma_with_share_add(a + seq![x], b, k);
        lemma_with_share_add(a, seq![x], k);
        lemma_with_share_add(a, b, k);
        assert(seq![x].drop_last() =~= Seq::<ProcessInfo>::empty());
        assert(with_share(seq![x].drop_last(), k) =~= Seq::<ProcessInfo>::empty());
        assert(seq![x].last() == x);
        let wa = with_share(a, k);
        let wb = with_share(b, k);
        let wx = with_share(seq![x], k);
        assert(with_share(s, k) == wa + wb);
        assert(with_share(n, k) == (wa + wx) + wb);
        if k == x.cpu_usage_bits {
            assert forall|i: int| 0 <= i < b.len() implies (#[trigger] b[i]).cpu_usage_bits != k by {
                assert(b[i] == s[p + i]);
            }
            lemma_with_share_none(b, k);
            assert(wx =~= seq![x]);
            assert((wa + wx) + wb =~= (wa + wb).push(x));
        } else {
            assert(wx =~= Seq::<ProcessInfo>::empty());
            assert((wa + wx) + wb =~= wa + wb);
        }
    }
}

proof fn lemma_same_classes_equal(a: Seq<ProcessInfo>, b: Seq<ProcessInfo>)
    requires
        shares_descending(a),
        shares_descending(b),
        forall|k: u32| #[trigger] with_share(a, k) == with_share(b, k),
    ensures
        a == b,
    decreases a.len() + b.len(),
{
    if a.len() == 0 && b.len() == 0 {
        assert(a =~= b);
    } else if a.len() == 0 {
        let k = b.last().cpu_usage_bits;
        assert(with_share(b, k).len() > 0);
        assert(with_share(a, k) == with_share(b, k));
    } else if b.len() == 0 {
        let k = a.last().cpu_usage_bits;
        assert(with_share(a, k).len() > 0);
        assert(with_share(a, k) == with_share(b, k));
    } else {
        let ka = a.last().cpu_usage_bits;
        let kb = b.last().cpu_usage_bits;
        assert(with_share(a, kb) == with_share(b, kb));
        assert(with_share(b, kb).len() > 0);
        lemma_with_share_member(a, kb);
        assert(ka <= kb) by {
            let i = choose|i: int| 0 <= i < a.len() && (#[trigger] a[i]).cpu_usage_bits == kb;
            if i < a.len() - 1 {
                assert(a[i].cpu_usage_bits >= a[a.len() - 1].cpu_usage_bits);
            }
        }
        assert(with_share(a, ka) == with_share(b, ka));
        assert(with_share(a, ka).len() > 0);
        lemma_with_share_member(b, ka);
        assert(kb <= ka) by {
            let i = choose|i: int| 0 <= i < b.len() && (#[trigger] b[i]).cpu_usage_bits == ka;
            if i < b.len() - 1 {
                assert(b[i].cpu_usage_bits >= b[b.len() - 1].cpu_usage_bits);
            }
        }
        assert(with_share(a, ka).last() == a.last());
        assert(with_share(b, ka).last() == b.last());
        assert forall|k: u32| #[trigger] with_share(a.drop_last(), k) == with_share(b.drop_last(), k) by {
            assert(with_share(a, k) == with_share(b, k));
            if k == ka {
                assert(with_share(a.drop_last(), k) =~= with_share(a, k).drop_last());
                assert(with_share(b.drop_last(), k) =~= with_share(b, k).drop_last());
            }
        }
        assert(shares_descending(a.drop_last())) by {
            assert forall|i: int, j: int| 0 <= i < j < a.drop_last().len() implies (
            #[trigger] a.drop_last()[i]).cpu_usage_bits >= (
            #[trigger] a.drop_last()[j]).cpu_usage_bits by {
                assert(a.drop_last()[i] == a[i] && a.drop_last()[j] == a[j]);
            }
        }
        assert(shares_descending(b.drop_last())) by {
            assert forall|i: int, j: int| 0 <= i < j < b.drop_last().len() implies (
            #[trigger] b.drop_last()[i]).cpu_usage_bits >= (
            #[trigger] b.drop_last()[j]).cpu_usage_bits by {
                assert(b.drop_last()[i] == b[i] && b.drop_last()[j] == b[j]);
            }
        }
        lemma_same_classes_equal(a.drop_last(), b.drop_last());
        assert(a =~= a.drop_last().push(a.last()));
        assert(b =~= b.drop_last().push(b.last()));
    }
}

/// Ordering by share is deterministic: there is exactly one stable order of
/// a list of processes by share, so two orderings of the same list agree.
pub proof fn lemma_share_order_unique(a: Seq<ProcessInfo>, b: Seq<ProcessInfo>, input: Seq<
    ProcessInfo,
>)
    requires
        is_share_order(a, input),
        is_share_order(b, input),
    ensures
        a == b,
{
    assert forall|k: u32| #[trigger] with_share(a, k) == with_share(b, k) by {
        assert(with_share(a, k) == with_share(input, k));
        assert(with_share(b, k) == with_share(input, k));
    }
    lemma_same_classes_equal(a, b);
}

/// Orders processes by their processor share, largest first, keeping the
/// order in which they were read among processes with the same share. The
/// shares are compared by the bits of their `f32` values, which order as the
/// values do for the non-negative shares that the monitor computes.
pub fn sort_by_share(procs: Vec<ProcessInfo>) -> (r: Vec<ProcessInfo>)
    ensures
        is_share_order(r@, procs@),
        r@.len() == procs@.len(),
{
    let ghost input = procs@;
    let mut rest = procs;
    let mut out: Vec<ProcessInfo> = Vec::new();
    proof {
        assert(input.take(0) =~= Seq::<ProcessInfo>::empty());
        assert(input.skip(0) =~= input);
    }
    while rest.len() > 0
        invariant
            rest@.len() <= input.len(),
            rest@ == input.skip(input.len() - rest@.len()),
            out@.len() == input.len() - rest@.len(),
            is_share_order(out@, input.take(input.len() - rest@.len())),
        decreases rest.len(),
    {
        let ghost done = input.len() - rest@.len();
        let x = rest.remove(0);
        proof {
            assert(x == input[done]);
            assert(rest@ =~= input.skip(done + 1));
        }
        let kx = x.cpu_usage_bits;
        let ghost s = out@;
        let mut p: usize = 0;
        while p < out.len() && out[p].cpu_usage_bits >= kx
            invariant
                p <= out@.len(),
                s == out@,
                forall|j: int| 0 <= j < p ==> (#[trigger] s[j]).cpu_usage_bits >= kx,
            decreases out@.len() - p,
        {
            p = p + 1;
        }
        proof {
            assert forall|j: int| p <= j < s.len() implies (#[trigger] s[j]).cpu_usage_bits < kx by {
                if j > p {
                    assert(s[p as int].cpu_usage_bits >= s[j].cpu_usage_bits);
                }
            }
            lemma_insert_keeps_share_order(s, x, p as int);
            assert(input.take(done + 1).drop_last() =~= input.take(done));
            assert(input.take(done + 1).last() == x);
        }
        out.insert(p, x);
        proof {
            assert(out@ =~= s.take(p as int) + seq![x] + s.skip(p as int));
        }
    }
    proof {
        assert(input.take(input.len() as int) =~= input);
    }
    out
}

/// The processes that the monitor lists: the `MAX_PROCESSES` first of them
/// ordered by share (see `sort_by_share`), or all of them when there are
/// fewer.
pub fn top_processes(procs: Vec<ProcessInfo>) -> (r: Vec<ProcessInfo>)
    ensures
        r@.len() == if procs@.len() < MAX_PROCESSES {
            procs@.len()
        } else {
            MAX_PROCESSES as nat
        },
        exists|s: Seq<ProcessInfo>| #[trigger]
            is_share_order(s, procs@) && r@ == s.take(r@.len() as int),
{
    let mut sorted = sort_by_share(procs);
    let ghost s = sorted@;
    sorted.truncate(MAX_PROCESSES);
    proof {
        assert(is_share_order(s, procs@));
        assert(sorted@ =~= s.take(sorted@.len() as int));
    }
    sorted
}

} // verus!
