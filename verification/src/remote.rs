//! The reading of a remote board: the text that one batch of shell commands
//! prints, cut into sections and parsed.

use vstd::prelude::*;

use crate::hardware::cpu::{CpuCore, CpuStats};
use crate::hardware::fan::{FanInfo, FanStats, FAN_PWM_MAX};
use crate::hardware::gpu::GpuStats;
use crate::hardware::jetson::{BoardInfo, JetsonModel};
use crate::hardware::memory::{
    meminfo_of, meminfo_overflows, parse_meminfo, sat_sub_nat, MemoryInfo, MemoryStats, MeminfoKb,
};
use crate::hardware::power::PowerStats;
use crate::hardware::temperature::{string_views, TempStats, ThermalZone};
use crate::hardware::JetsonStats;
use crate::text::{
    chars_of, contains, contains_chars, find, find_chars, lines, parse_i64, parse_i64_chars,
    parse_trimmed_u64, parse_u32, parse_u32_chars, parse_u64, parse_u64_chars, slice_of,
    split_lines, split_words, splitn_char, splitn_chars, starts_with, starts_with_chars,
    string_of, strip_all_prefix, strip_all_prefix_chars, trim, trim_chars, trimmed, views, words,
};

verus! {

/// The line that separates the sections of the batch output.
pub open spec fn separator() -> Seq<char> {
    "---SEP---"@
}

/// `str::split` with a non-empty string pattern: the pieces between its
/// occurrences (the whole text for an empty pattern).
pub open spec fn split_str(s: Seq<char>, pat: Seq<char>) -> Seq<Seq<char>>
    decreases s.len(),
{
    if pat.len() == 0 {
        seq![s]
    } else {
        match find(s, pat) {
            None => seq![s],
            Some(i) => {
                proof {
                    crate::text::lemma_find_from_range(s, pat, 0);
                }
                seq![s.take(i)] + split_str(s.skip(i + pat.len()), pat)
            },
        }
    }
}

/// The sections of the batch output, in order.
pub fn split_sections(output: &str) -> (r: Vec<String>)
    ensures
        string_views(r@) == split_str(output@, separator()),
{
    let v = chars_of(output);
    let pat = chars_of("---SEP---");
    proof {
        reveal_strlit("---SEP---");
    }
    let mut r: Vec<String> = Vec::new();
    let mut cur = slice_of(&v, 0, v.len());
    proof {
        assert(cur@ =~= v@);
        assert(r@.map_values(|s: String| s@) =~= seq![]);
    }
    loop
        invariant
            pat@ == separator(),
            pat@.len() == 9,
            split_str(output@, separator()) == r@.map_values(|s: String| s@) + split_str(
                cur@,
                separator(),
            ),
            v@ == output@,
        decreases cur@.len(),
    {
        let ghost before = r@;
        let cl = cur.len();
        match find_chars(&cur, &pat) {
            None => {
                r.push(string_of(cur.as_slice()));
                proof {
                    assert(r@.map_values(|s: String| s@) =~= before.map_values(|s: String| s@).push(
                        cur@,
                    ));
                }
                return r;
            },
            Some(i) => {
                proof {
                    crate::text::lemma_find_from_range(cur@, pat@, 0);
                }
                let piece = slice_of(&cur, 0, i);
                let rest = slice_of(&cur, i + 9, cl);
                proof {
                    assert(piece@ =~= cur@.take(i as int));
                    assert(rest@ =~= cur@.skip(i + 9));
                }
                r.push(string_of(piece.as_slice()));
                proof {
                    assert(r@.map_values(|s: String| s@) =~= before.map_values(|s: String| s@).push(
                        piece@,
                    ));
                }
                cur = rest;
            },
        }
    }
}

// ---------------------------------------------------------------------------
// Processor
// ---------------------------------------------------------------------------

/// The numbers of the lines of a text, in order: each trimmed line that
/// reads as a `u64`.
pub open spec fn line_values(ls: Seq<Seq<char>>) -> Seq<u64>
    decreases ls.len(),
{
    if ls.len() == 0 {
        seq![]
    } else {
        let rest = line_values(ls.drop_last());
        match parse_u64(trim(ls.last())) {
            Some(v) => rest.push(v),
            None => rest,
        }
    }
}

/// The core that a line of `/proc/stat` names: a line that starts with
/// "cpu" but not "cpu ", has at least five words, and whose first word
/// is "cpu" followed by a `u32`.
pub open spec fn remote_core_id(line: Seq<char>) -> Option<u32> {
    let parts = words(line);
    if !starts_with(line, "cpu"@) || starts_with(line, "cpu "@) || parts.len() < 5 {
        None
    } else {
        parse_u32(strip_all_prefix(parts[0], "cpu"@))
    }
}

/// The cores named by the lines of `/proc/stat`, in order.
pub open spec fn remote_core_ids(ls: Seq<Seq<char>>) -> Seq<u32>
    decreases ls.len(),
{
    if ls.len() == 0 {
        seq![]
    } else {
        let rest = remote_core_ids(ls.drop_last());
        match remote_core_id(ls.last()) {
            Some(id) => rest.push(id),
            None => rest,
        }
    }
}

/// The frequency listed for a core (the core's number indexes the list),
/// zero past its end.
pub open spec fn freq_at(freqs: Seq<u64>, id: u32) -> u64 {
    if id < freqs.len() {
        freqs[id as int]
    } else {
        0
    }
}

fn line_values_exec(text: &str) -> (r: Vec<u64>)
    ensures
        r@ == line_values(lines(text@)),
{
    let ls = split_lines(&chars_of(text));
    let ghost all = lines(text@);
    let mut r: Vec<u64> = Vec::new();
    let mut i: usize = 0;
    proof {
        assert(views(ls@).len() == ls@.len());
        assert(all.take(0) =~= seq![]);
    }
    while i < ls.len()
        invariant
            i <= ls.len(),
            views(ls@) == all,
            all == lines(text@),
            r@ == line_values(all.take(i as int)),
        decreases ls.len() - i,
    {
        proof {
            assert(all.take(i + 1).drop_last() =~= all.take(i as int));
            assert(all.take(i + 1).last() == ls@[i as int]@);
        }
        if let Some(v) = parse_u64_chars(&trim_chars(&ls[i])) {
            r.push(v);
        }
        i = i + 1;
    }
    proof {
        assert(all.take(i as int) =~= all);
    }
    r
}

fn remote_core_id_exec(line: &Vec<char>, cpu: &Vec<char>, cpu_sp: &Vec<char>) -> (r: Option<u32>)
    requires
        cpu@ == "cpu"@,
        cpu_sp@ == "cpu "@,
    ensures
        r == remote_core_id(line@),
{
    if !starts_with_chars(line, cpu) || starts_with_chars(line, cpu_sp) {
        return None;
    }
    let parts = split_words(line);
    proof {
        assert(views(parts@).len() == parts@.len());
    }
    if parts.len() < 5 {
        return None;
    }
    proof {
        assert(views(parts@)[0] == parts@[0]@);
    }
    parse_u32_chars(&strip_all_prefix_chars(&parts[0], cpu))
}

/// The cores of a remote board from its `/proc/stat` and its list of
/// current frequencies (one per line, in core order): each core online,
/// without load, with its listed frequency and nothing else.
pub open spec fn remote_cpu(r: CpuStats, stat_output: Seq<char>, freq_output: Seq<char>) -> bool {
    let ids = remote_core_ids(lines(stat_output));
    let freqs = line_values(lines(freq_output));
    &&& r.cores@.len() == ids.len()
    &&& r.total_usage_bits == 0
    &&& forall|i: int|
        0 <= i < ids.len() ==> {
            let c = #[trigger] r.cores@[i];
            &&& c.id == ids[i]
            &&& c.online
            &&& c.idle_delta == 0 && c.total_delta == 0
            &&& c.freq_cur == freq_at(freqs, ids[i])
            &&& c.freq_min == 0 && c.freq_max == 0
            &&& c.governor@.len() == 0
        }
}

/// The cores of a remote board (see `remote_cpu`).
pub fn parse_cpu_section(stat_output: &str, freq_output: &str) -> (r: CpuStats)
    ensures
        remote_cpu(r, stat_output@, freq_output@),
{
    let freqs = line_values_exec(freq_output);
    let ls = split_lines(&chars_of(stat_output));
    let cpu = chars_of("cpu");
    let cpu_sp = chars_of("cpu ");
    let ghost all = lines(stat_output@);
    let ghost ids_all = remote_core_ids(all);
    let mut cores: Vec<CpuCore> = Vec::new();
    let mut i: usize = 0;
    proof {
        assert(views(ls@).len() == ls@.len());
        assert(all.take(0) =~= seq![]);
    }
    while i < ls.len()
        invariant
            i <= ls.len(),
            views(ls@) == all,
            all == lines(stat_output@),
            cpu@ == "cpu"@,
            cpu_sp@ == "cpu "@,
            freqs@ == line_values(lines(freq_output@)),
            cores@.len() == remote_core_ids(all.take(i as int)).len(),
            forall|j: int|
                0 <= j < cores@.len() ==> {
                    let c = #[trigger] cores@[j];
                    let id = remote_core_ids(all.take(i as int))[j];
                    &&& c.id == id
                    &&& c.online
                    &&& c.idle_delta == 0 && c.total_delta == 0
                    &&& c.freq_cur == freq_at(freqs@, id)
                    &&& c.freq_min == 0 && c.freq_max == 0
                    &&& c.governor@.len() == 0
                },
        decreases ls.len() - i,
    {
        proof {
            assert(all.take(i + 1).drop_last() =~= all.take(i as int));
            assert(all.take(i + 1).last() == ls@[i as int]@);
        }
        if let Some(id) = remote_core_id_exec(&ls[i], &cpu, &cpu_sp) {
            let freq_cur: u64 = if (id as usize) < freqs.len() {
                freqs[id as usize]
            } else {
                0
            };
            cores.push(
                CpuCore {
                    id,
                    online: true,
                    idle_delta: 0,
                    total_delta: 0,
                    freq_cur,
                    freq_min: 0,
                    freq_max: 0,
                    governor: String::new(),
                },
            );
        }
        i = i + 1;
    }
    proof {
        assert(all.take(i as int) =~= all);
    }
    CpuStats { cores, total_usage_bits: 0 }
}

// ---------------------------------------------------------------------------
// Graphics processor and memory
// ---------------------------------------------------------------------------

/// The number in a section, zero when it does not hold one.
pub open spec fn section_u64(s: Seq<char>) -> u64 {
    match parse_u64(trim(s)) {
        Some(v) => v,
        None => 0,
    }
}

/// The graphics processor of a remote board from its load and current
/// frequency sections.
pub open spec fn remote_gpu(r: GpuStats, load_output: Seq<char>, freq_output: Seq<char>) -> bool {
    &&& r.load == section_u64(load_output)
    &&& r.freq_cur == section_u64(freq_output)
    &&& r.freq_min == 0 && r.freq_max == 0
    &&& r.governor@.len() == 0
}

/// The graphics processor of a remote board (see `remote_gpu`).
pub fn parse_gpu_section(load_output: &str, freq_output: &str) -> (r: GpuStats)
    ensures
        remote_gpu(r, load_output@, freq_output@),
{
    let load = match parse_trimmed_u64(load_output) {
        Some(v) => v,
        None => 0,
    };
    let freq_cur = match parse_trimmed_u64(freq_output) {
        Some(v) => v,
        None => 0,
    };
    GpuStats { load, freq_cur, freq_min: 0, freq_max: 0, governor: String::new() }
}

/// The memory of a remote board: used is total less available (never below
/// zero); no compressed swap or controller readings.
pub open spec fn remote_ram(m: MeminfoKb) -> MemoryInfo {
    MemoryInfo {
        total: (m.mem_total * 1024) as u64,
        used: (sat_sub_nat(m.mem_total as nat, m.mem_available as nat) * 1024) as u64,
        free: (m.mem_available * 1024) as u64,
        cached: (m.cached * 1024) as u64,
        buffers: (m.buffers * 1024) as u64,
    }
}

pub open spec fn remote_swap(m: MeminfoKb) -> MemoryInfo {
    MemoryInfo {
        total: (m.swap_total * 1024) as u64,
        used: (sat_sub_nat(m.swap_total as nat, m.swap_free as nat) * 1024) as u64,
        free: (m.swap_free * 1024) as u64,
        cached: 0,
        buffers: 0,
    }
}

/// The memory of a remote board from its `/proc/meminfo`, when no field in
/// bytes exceeds `u64`.
pub open spec fn remote_memory(s: MemoryStats, meminfo: Seq<char>) -> bool {
    &&& s.ram == remote_ram(meminfo_of(meminfo))
    &&& s.swap == remote_swap(meminfo_of(meminfo))
    &&& s.zram is None
    &&& s.emc is None
}

/// The memory of a remote board (see `remote_memory`); `None` exactly when
/// a field in bytes exceeds `u64`.
pub fn parse_memory_section(meminfo: &str) -> (r: Option<MemoryStats>)
    ensures
        r is None <==> meminfo_overflows(meminfo_of(meminfo@)),
        r matches Some(s) ==> remote_memory(s, meminfo@),
{
    let m = parse_meminfo(meminfo);
    if m.mem_total > u64::MAX / 1024 || m.mem_available > u64::MAX / 1024 || m.cached > u64::MAX
        / 1024 || m.buffers > u64::MAX / 1024 || m.swap_total > u64::MAX / 1024 || m.swap_free
        > u64::MAX / 1024 {
        return None;
    }
    let ram = MemoryInfo {
        total: m.mem_total * 1024,
        used: m.mem_total.saturating_sub(m.mem_available) * 1024,
        free: m.mem_available * 1024,
        cached: m.cached * 1024,
        buffers: m.buffers * 1024,
    };
    let swap = MemoryInfo {
        total: m.swap_total * 1024,
        used: m.swap_total.saturating_sub(m.swap_free) * 1024,
        free: m.swap_free * 1024,
        cached: 0,
        buffers: 0,
    };
    Some(MemoryStats { ram, swap, zram: None, emc: None })
}


/// The local and the remote reader agree on a board's memory: on the swap
/// space always, and on the random-access memory whenever the kernel reports
/// no more available than there is (otherwise the local reader falls back on
/// free, buffers and cache, and the remote one reports nothing used).
pub proof fn lemma_readers_agree_on_memory(m: MeminfoKb)
    requires
        !meminfo_overflows(m),
    ensures
        remote_swap(m) == crate::hardware::memory::swap_of(m),
        m.mem_available <= m.mem_total ==> remote_ram(m) == crate::hardware::memory::ram_of(m),
{
    let st = m.swap_total as nat;
    let sf = m.swap_free as nat;
    if st >= sf {
        assert((st - sf) * 1024 == st * 1024 - sf * 1024) by (nonlinear_arith);
    } else {
        assert(st * 1024 < sf * 1024) by (nonlinear_arith)
            requires
                st < sf,
        ;
    }
}

// ---------------------------------------------------------------------------
// Temperatures and fans
// ---------------------------------------------------------------------------

/// The zone that a line "type:millidegrees" names: the text before the
/// first ':' and the number after it (zero when missing or not a number);
/// `None` for a blank line.
pub open spec fn remote_zone(line: Seq<char>) -> Option<(Seq<char>, i64)> {
    let t = trim(line);
    if t.len() == 0 {
        None
    } else {
        let parts = splitn_char(t, ':', 2);
        let raw = if parts.len() > 1 {
            parts[1]
        } else {
            "0"@
        };
        Some(
            (
                parts[0],
                match parse_i64(trim(raw)) {
                    Some(v) => v,
                    None => 0,
                },
            ),
        )
    }
}

pub open spec fn remote_zones(ls: Seq<Seq<char>>) -> Seq<(Seq<char>, i64)>
    decreases ls.len(),
{
    if ls.len() == 0 {
        seq![]
    } else {
        let rest = remote_zones(ls.drop_last());
        match remote_zone(ls.last()) {
            Some(z) => rest.push(z),
            None => rest,
        }
    }
}

pub open spec fn zone_view(z: ThermalZone) -> (Seq<char>, i64) {
    (z.name@, z.temp_milli)
}

/// The thermal zones of a remote board, one per non-blank line, each named
/// by its type and without trip points.
pub open spec fn remote_temps(r: TempStats, output: Seq<char>) -> bool {
    &&& r.zones@.map_values(|z: ThermalZone| zone_view(z)) == remote_zones(lines(output))
    &&& forall|i: int|
        0 <= i < r.zones@.len() ==> (#[trigger] r.zones@[i]).zone_type@ == r.zones@[i].name@
            && r.zones@[i].trip_points@.len() == 0
}

/// The thermal zones of a remote board (see `remote_temps`).
pub fn parse_temp_section(output: &str) -> (r: TempStats)
    ensures
        remote_temps(r, output@),
{
    let ls = split_lines(&chars_of(output));
    let ghost all = lines(output@);
    let mut zones: Vec<ThermalZone> = Vec::new();
    let mut i: usize = 0;
    proof {
        assert(views(ls@).len() == ls@.len());
        assert(all.take(0) =~= seq![]);
        assert(zones@.map_values(|z: ThermalZone| zone_view(z)) =~= seq![]);
    }
    while i < ls.len()
        invariant
            i <= ls.len(),
            views(ls@) == all,
            all == lines(output@),
            zones@.map_values(|z: ThermalZone| zone_view(z)) == remote_zones(all.take(i as int)),
            forall|j: int|
                0 <= j < zones@.len() ==> (#[trigger] zones@[j]).zone_type@ == zones@[j].name@
                    && zones@[j].trip_points@.len() == 0,
        decreases ls.len() - i,
    {
        proof {
            assert(all.take(i + 1).drop_last() =~= all.take(i as int));
            assert(all.take(i + 1).last() == ls@[i as int]@);
        }
        let t = trim_chars(&ls[i]);
        if t.len() > 0 {
            let parts = splitn_chars(&t, ':', 2);
            proof {
                assert(views(parts@).len() == parts@.len());
                assert(parts@.len() >= 1);
                assert(views(parts@)[0] == parts@[0]@);
            }
            let temp_milli: i64 = if parts.len() > 1 {
                proof {
                    assert(views(parts@)[1] == parts@[1]@);
                }
                match parse_i64_chars(&trim_chars(&parts[1])) {
                    Some(v) => v,
                    None => 0,
                }
            } else {
                match parse_i64_chars(&trim_chars(&chars_of("0"))) {
                    Some(v) => v,
                    None => 0,
                }
            };
            let name = string_of(parts[0].as_slice());
            let zone_type = string_of(parts[0].as_slice());
            let z = ThermalZone { name, temp_milli, zone_type, trip_points: Vec::new() };
            let ghost before = zones@;
            zones.push(z);
            proof {
                assert(zones@.map_values(|z: ThermalZone| zone_view(z)) =~= before.map_values(
                    |z: ThermalZone| zone_view(z),
                ).push(zone_view(z)));
            }
        }
        i = i + 1;
    }
    proof {
        assert(all.take(i as int) =~= all);
    }
    TempStats { zones }
}

/// The fan that a line "name:pwm:rpm" names (the rpm part may be missing or
/// hold more ':'): `None` for a blank line or one without ':'; numbers that
/// do not read count as zero, and an empty name is "Fan".
pub open spec fn remote_fan(line: Seq<char>) -> Option<(Seq<char>, u32, u32)> {
    let t = trim(line);
    let parts = splitn_char(t, ':', 3);
    if t.len() == 0 || parts.len() < 2 {
        None
    } else {
        Some(
            (
                if parts[0].len() == 0 {
                    "Fan"@
                } else {
                    parts[0]
                },
                match parse_u32(trim(parts[1])) {
                    Some(v) => v,
                    None => 0,
                },
                if parts.len() > 2 {
                    match parse_u32(trim(parts[2])) {
                        Some(v) => v,
                        None => 0,
                    }
                } else {
                    0
                },
            ),
        )
    }
}

pub open spec fn remote_fans(ls: Seq<Seq<char>>) -> Seq<(Seq<char>, u32, u32)>
    decreases ls.len(),
{
    if ls.len() == 0 {
        seq![]
    } else {
        let rest = remote_fans(ls.drop_last());
        match remote_fan(ls.last()) {
            Some(f) => rest.push(f),
            None => rest,
        }
    }
}

/// The name, duty cycle and speed of a fan.
pub open spec fn fan_view(f: FanInfo) -> (Seq<char>, u32, u32) {
    (f.name@, f.pwm, f.speed)
}

fn u32_or_zero(v: &Vec<char>) -> (r: u32)
    ensures
        r == (match parse_u32(trim(v@)) {
            Some(x) => x,
            None => 0,
        }),
{
    match parse_u32_chars(&trim_chars(v)) {
        Some(x) => x,
        None => 0,
    }
}

/// The fans of a remote board, one per line that names one (see
/// `remote_fan`), each with the full duty-cycle range and an unknown
/// profile.
pub open spec fn remote_fan_stats(r: FanStats, output: Seq<char>) -> bool {
    &&& r.fans@.map_values(|f: FanInfo| fan_view(f)) == remote_fans(lines(output))
    &&& forall|i: int|
        0 <= i < r.fans@.len() ==> (#[trigger] r.fans@[i]).pwm_max == FAN_PWM_MAX
            && r.fans@[i].profile@ == "unknown"@
}

/// The fans of a remote board (see `remote_fan_stats`).
pub fn parse_fan_section(output: &str) -> (r: FanStats)
    ensures
        remote_fan_stats(r, output@),
{
    let ls = split_lines(&chars_of(output));
    let ghost all = lines(output@);
    let mut fans: Vec<FanInfo> = Vec::new();
    let mut i: usize = 0;
    proof {
        assert(views(ls@).len() == ls@.len());
        assert(all.take(0) =~= seq![]);
        assert(fans@.map_values(|f: FanInfo| fan_view(f)) =~= seq![]);
    }
    while i < ls.len()
        invariant
            i <= ls.len(),
            views(ls@) == all,
            all == lines(output@),
            fans@.map_values(|f: FanInfo| fan_view(f)) == remote_fans(all.take(i as int)),
            forall|j: int|
                0 <= j < fans@.len() ==> (#[trigger] fans@[j]).pwm_max == FAN_PWM_MAX
                    && fans@[j].profile@ == "unknown"@,
        decreases ls.len() - i,
    {
        proof {
            assert(all.take(i + 1).drop_last() =~= all.take(i as int));
            assert(all.take(i + 1).last() == ls@[i as int]@);
        }
        let t = trim_chars(&ls[i]);
        let parts = splitn_chars(&t, ':', 3);
        proof {
            assert(views(parts@).len() == parts@.len());
        }
        if t.len() > 0 && parts.len() >= 2 {
            proof {
                assert(views(parts@)[0] == parts@[0]@);
                assert(views(parts@)[1] == parts@[1]@);
            }
            let pwm = u32_or_zero(&parts[1]);
            let rpm: u32 = if parts.len() > 2 {
                proof {
                    assert(views(parts@)[2] == parts@[2]@);
                }
                u32_or_zero(&parts[2])
            } else {
                0
            };
            let name = if parts[0].len() == 0 {
                String::from_str("Fan")
            } else {
                string_of(parts[0].as_slice())
            };
            let f = FanInfo {
                name,
                speed: rpm,
                pwm,
                pwm_max: FAN_PWM_MAX,
                profile: String::from_str("unknown"),
            };
            let ghost before = fans@;
            fans.push(f);
            proof {
                assert(fans@.map_values(|f: FanInfo| fan_view(f)) =~= before.map_values(
                    |f: FanInfo| fan_view(f),
                ).push(fan_view(f)));
            }
        }
        i = i + 1;
    }
    proof {
        assert(all.take(i as int) =~= all);
    }
    FanStats { fans }
}

// ---------------------------------------------------------------------------
// Board
// ---------------------------------------------------------------------------

/// The family of a remote board, from the first of "AGX Orin", "Orin NX",
/// "Orin Nano" that its model string contains; unknown without a model
/// string, else the model string itself.
pub open spec fn remote_model_matches(m: JetsonModel, model: Seq<char>) -> bool {
    if contains(model, "AGX Orin"@) {
        m == JetsonModel::AGXOrin
    } else if contains(model, "Orin NX"@) {
        m == JetsonModel::OrinNX
    } else if contains(model, "Orin Nano"@) {
        m == JetsonModel::OrinNano
    } else if model.len() == 0 {
        m == JetsonModel::Unknown
    } else {
        m matches JetsonModel::Other(x) && x@ == model
    }
}

/// On a model string that names an Orin board by "AGX Orin", "Orin NX" or
/// "Orin Nano" (and uses none of the lower-case forms "agx-orin", "orin-nx",
/// "orin-nano" that only the local reader knows), the remote reader names
/// the same family as the local one: AGX Orin when "AGX Orin" occurs, else
/// Orin NX when "Orin NX" occurs, else Orin Nano.
pub proof fn lemma_remote_family(m: JetsonModel, model: Seq<char>)
    requires
        contains(model, "AGX Orin"@) || contains(model, "Orin NX"@) || contains(
            model,
            "Orin Nano"@,
        ),
        !contains(model, "agx-orin"@),
        !contains(model, "orin-nx"@),
        !contains(model, "orin-nano"@),
    ensures
        remote_model_matches(m, model) <==> crate::hardware::jetson::model_matches(m, model),
        contains(model, "AGX Orin"@) ==> (remote_model_matches(m, model) <==> m
            == JetsonModel::AGXOrin),
        !contains(model, "AGX Orin"@) && contains(model, "Orin NX"@) ==> (remote_model_matches(
            m,
            model,
        ) <==> m == JetsonModel::OrinNX),
        !contains(model, "AGX Orin"@) && !contains(model, "Orin NX"@) ==> (remote_model_matches(
            m,
            model,
        ) <==> m == JetsonModel::OrinNano),
{
}

/// The board of a remote machine from its model, hostname and kernel
/// sections and its uptime in seconds (which the front end reads).
pub open spec fn remote_board(
    r: BoardInfo,
    model: Seq<char>,
    hostname: Seq<char>,
    uptime_secs: u64,
    kernel: Seq<char>,
) -> bool {
    &&& r.model@ == trim(model)
    &&& remote_model_matches(r.board_type, r.model@)
    &&& r.serial@.len() == 0
    &&& r.l4t_version@.len() == 0
    &&& r.jetpack_version@.len() == 0
    &&& r.cuda_version@.len() == 0
    &&& r.kernel_version@ == trim(kernel)
    &&& r.hostname@ == trim(hostname)
    &&& r.uptime == uptime_secs
}

/// The board of a remote machine (see `remote_board`).
pub fn parse_board_section(model: &str, hostname: &str, uptime_secs: u64, kernel: &str) -> (r:
    BoardInfo)
    ensures
        remote_board(r, model@, hostname@, uptime_secs, kernel@),
{
    let m = trim_chars(&chars_of(model));
    let board_type = if contains_chars(&m, "AGX Orin") {
        JetsonModel::AGXOrin
    } else if contains_chars(&m, "Orin NX") {
        JetsonModel::OrinNX
    } else if contains_chars(&m, "Orin Nano") {
        JetsonModel::OrinNano
    } else if m.len() == 0 {
        JetsonModel::Unknown
    } else {
        JetsonModel::Other(string_of(m.as_slice()))
    };
    BoardInfo {
        model: string_of(m.as_slice()),
        board_type,
        serial: String::new(),
        l4t_version: String::new(),
        jetpack_version: String::new(),
        cuda_version: String::new(),
        kernel_version: trimmed(kernel),
        hostname: trimmed(hostname),
        uptime: uptime_secs,
    }
}

// ---------------------------------------------------------------------------
// The whole reading
// ---------------------------------------------------------------------------

/// Section `i` of the batch output, empty when there are fewer sections.
pub open spec fn section_at(sections: Seq<Seq<char>>, i: int) -> Seq<char> {
    if 0 <= i < sections.len() {
        sections[i]
    } else {
        seq![]
    }
}

fn section_str(sections: &Vec<String>, i: usize) -> (r: &str)
    ensures
        r@ == section_at(string_views(sections@), i as int),
{
    if i < sections.len() {
        sections[i].as_str()
    } else {
        proof {
            reveal_strlit("");
        }
        ""
    }
}

/// A snapshot of a remote board from the sections of its batch output (see
/// `split_sections`) and its uptime in seconds: the processor from sections
/// 0 (`/proc/stat`) and 1 (frequencies), the graphics processor from 2
/// (load) and 3 (frequency), the memory from 4, the zones from 5, the fans
/// from 6, and the board from 7 (model), 8 (hostname) and 10 (kernel); a
/// missing section counts as empty. The batch reads no power rails and no
/// processes. `None` exactly when a memory field in bytes exceeds `u64`.
pub fn remote_stats(sections: &Vec<String>, uptime_secs: u64) -> (r: Option<JetsonStats>)
    ensures
        ({
            let s = string_views(sections@);
            &&& r is None <==> meminfo_overflows(meminfo_of(section_at(s, 4)))
            &&& r matches Some(st) ==> {
                &&& remote_cpu(st.cpu, section_at(s, 0), section_at(s, 1))
                &&& remote_gpu(st.gpu, section_at(s, 2), section_at(s, 3))
                &&& remote_memory(st.memory, section_at(s, 4))
                &&& remote_temps(st.temperature, section_at(s, 5))
                &&& remote_fan_stats(st.fan, section_at(s, 6))
                &&& st.power.rails@.len() == 0 && st.power.total_power_bits == 0
                &&& st.processes@.len() == 0
                &&& remote_board(
                    st.board,
                    section_at(s, 7),
                    section_at(s, 8),
                    uptime_secs,
                    section_at(s, 10),
                )
            }
        }),
{
    let memory = match parse_memory_section(section_str(sections, 4)) {
        Some(m) => m,
        None => {
            return None;
        },
    };
    Some(
        JetsonStats {
            cpu: parse_cpu_section(section_str(sections, 0), section_str(sections, 1)),
            gpu: parse_gpu_section(section_str(sections, 2), section_str(sections, 3)),
            memory,
            temperature: parse_temp_section(section_str(sections, 5)),
            fan: parse_fan_section(section_str(sections, 6)),
            power: PowerStats::default(),
            processes: Vec::new(),
            board: parse_board_section(
                section_str(sections, 7),
                section_str(sections, 8),
                uptime_secs,
                section_str(sections, 10),
            ),
        },
    )
}

} // verus!
