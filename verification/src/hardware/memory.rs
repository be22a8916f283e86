use vstd::prelude::*;

use crate::text::{
    chars_of, eq_str, lines, parse_trimmed_u64, parse_u64, parse_u64_chars, split_lines,
    split_words, trim, views, words,
};

verus! {

/// Memory of the board, in bytes.
#[derive(Debug, Clone, PartialEq, Eq)]
pub struct MemoryStats {
    pub ram: MemoryInfo,
    pub swap: MemoryInfo,
    pub zram: Option<ZramInfo>,
    pub emc: Option<EmcInfo>,
}

/// One kind of memory, in bytes.
#[derive(Debug, Clone, Copy, PartialEq, Eq, Structural)]
pub struct MemoryInfo {
    pub total: u64,
    pub used: u64,
    pub free: u64,
    pub cached: u64,
    pub buffers: u64,
}

/// The compressed swap device: original and compressed data size in bytes.
#[derive(Debug, Clone, Copy, PartialEq, Eq, Structural)]
pub struct ZramInfo {
    pub total: u64,
    pub used: u64,
}

/// The external memory controller.
#[derive(Debug, Clone, Copy, PartialEq, Eq, Structural)]
pub struct EmcInfo {
    pub freq_cur: u64,
    pub freq_max: u64,
    /// Activity percentage, as the bits of the `f32` that the front end
    /// reads from the kernel.
    pub usage_bits: u32,
}

impl Default for MemoryInfo {
    fn default() -> (r: MemoryInfo)
        ensures
            r == (MemoryInfo { total: 0, used: 0, free: 0, cached: 0, buffers: 0 }),
    {
        MemoryInfo { total: 0, used: 0, free: 0, cached: 0, buffers: 0 }
    }
}

impl Default for MemoryStats {
    fn default() -> (r: MemoryStats)
        ensures
            r.ram == MemoryInfo::spec_zero(),
            r.swap == MemoryInfo::spec_zero(),
            r.zram is None,
            r.emc is None,
    {
        MemoryStats { ram: MemoryInfo::default(), swap: MemoryInfo::default(), zram: None, emc: None }
    }
}

impl MemoryInfo {
    pub open spec fn spec_zero() -> MemoryInfo {
        MemoryInfo { total: 0, used: 0, free: 0, cached: 0, buffers: 0 }
    }
}

/// The value in kB of a `/proc/meminfo` field: the second word of the last
/// line whose first word is the key and whose second word reads as a
/// number, or zero when there is no such line.
pub open spec fn meminfo_value(ls: Seq<Seq<char>>, key: Seq<char>) -> u64
    decreases ls.len(),
{
    if ls.len() == 0 {
        0
    } else {
        let w = words(ls.last());
        if w.len() >= 2 && w[0] == key && parse_u64(w[1]) is Some {
            parse_u64(w[1]).unwrap()
        } else {
            meminfo_value(ls.drop_last(), key)
        }
    }
}

/// The field of the contents of `/proc/meminfo` with the given key.
pub open spec fn meminfo_field(content: Seq<char>, key: Seq<char>) -> u64 {
    meminfo_value(lines(content), key)
}

/// The fields of `/proc/meminfo` that the monitor reads, in kB.
#[derive(Debug, Clone, Copy, PartialEq, Eq, Structural)]
pub struct MeminfoKb {
    pub mem_total: u64,
    pub mem_free: u64,
    pub mem_available: u64,
    pub buffers: u64,
    pub cached: u64,
    pub swap_total: u64,
    pub swap_free: u64,
}

/// The fields that the monitor reads from the contents of `/proc/meminfo`.
pub open spec fn meminfo_of(content: Seq<char>) -> MeminfoKb {
    MeminfoKb {
        mem_total: meminfo_field(content, "MemTotal:"@),
        mem_free: meminfo_field(content, "MemFree:"@),
        mem_available: meminfo_field(content, "MemAvailable:"@),
        buffers: meminfo_field(content, "Buffers:"@),
        cached: meminfo_field(content, "Cached:"@),
        swap_total: meminfo_field(content, "SwapTotal:"@),
        swap_free: meminfo_field(content, "SwapFree:"@),
    }
}

proof fn lemma_meminfo_step(ls: Seq<Seq<char>>, i: int, key: Seq<char>)
    requires
        0 <= i < ls.len(),
    ensures
        meminfo_value(ls.take(i + 1), key) == ({
            let w = words(ls[i]);
            if w.len() >= 2 && w[0] == key && parse_u64(w[1]) is Some {
                parse_u64(w[1]).unwrap()
            } else {
                meminfo_value(ls.take(i), key)
            }
        }),
{
    assert(ls.take(i + 1).drop_last() =~= ls.take(i));
    assert(ls.take(i + 1).last() == ls[i]);
}

/// Reads the fields of the contents of `/proc/meminfo` that the monitor uses.
pub fn parse_meminfo(content: &str) -> (r: MeminfoKb)
    ensures
        r == meminfo_of(content@),
{
    let ls = split_lines(&chars_of(content));
    let ghost all = lines(content@);
    let mut r = MeminfoKb {
        mem_total: 0,
        mem_free: 0,
        mem_available: 0,
        buffers: 0,
        cached: 0,
        swap_total: 0,
        swap_free: 0,
    };
    let mut i: usize = 0;
    proof {
        assert(views(ls@).len() == ls@.len());
        assert(all.take(0) =~= seq![]);
    }
    while i < ls.len()
        invariant
            i <= ls.len(),
            views(ls@) == all,
            all == lines(content@),
            r.mem_total == meminfo_value(all.take(i as int), "MemTotal:"@),
            r.mem_free == meminfo_value(all.take(i as int), "MemFree:"@),
            r.mem_available == meminfo_value(all.take(i as int), "MemAvailable:"@),
            r.buffers == meminfo_value(all.take(i as int), "Buffers:"@),
            r.cached == meminfo_value(all.take(i as int), "Cached:"@),
            r.swap_total == meminfo_value(all.take(i as int), "SwapTotal:"@),
            r.swap_free == meminfo_value(all.take(i as int), "SwapFree:"@),
        decreases ls.len() - i,
    {
        proof {
            assert(all[i as int] == ls@[i as int]@);
            lemma_meminfo_step(all, i as int, "MemTotal:"@);
            lemma_meminfo_step(all, i as int, "MemFree:"@);
            lemma_meminfo_step(all, i as int, "MemAvailable:"@);
            lemma_meminfo_step(all, i as int, "Buffers:"@);
            lemma_meminfo_step(all, i as int, "Cached:"@);
            lemma_meminfo_step(all, i as int, "SwapTotal:"@);
            lemma_meminfo_step(all, i as int, "SwapFree:"@);
        }
        let w = split_words(&ls[i]);
        proof {
            assert(views(w@).len() == w@.len());
        }
        if w.len() >= 2 {
            proof {
                assert(views(w@)[0] == w@[0]@);
                assert(views(w@)[1] == w@[1]@);
            }
            if let Some(v) = parse_u64_chars(&w[1]) {
                let key = &w[0];
                if eq_str(key, "MemTotal:") {
                    r.mem_total = v;
                }
                if eq_str(key, "MemFree:") {
                    r.mem_free = v;
                }
                if eq_str(key, "MemAvailable:") {
                    r.mem_available = v;
                }
                if eq_str(key, "Buffers:") {
                    r.buffers = v;
                }
                if eq_str(key, "Cached:") {
                    r.cached = v;
                }
                if eq_str(key, "SwapTotal:") {
                    r.swap_total = v;
                }
                if eq_str(key, "SwapFree:") {
                    r.swap_free = v;
                }
            }
        }
        i = i + 1;
    }
    proof {
        assert(all.take(i as int) =~= all);
    }
    r
}

/// Some field that the monitor turns into bytes exceeds `u64` once
/// multiplied by 1024.
pub open spec fn meminfo_overflows(m: MeminfoKb) -> bool {
    ||| m.mem_total * 1024 > u64::MAX
    ||| m.mem_available * 1024 > u64::MAX
    ||| m.cached * 1024 > u64::MAX
    ||| m.buffers * 1024 > u64::MAX
    ||| m.swap_total * 1024 > u64::MAX
    ||| m.swap_free * 1024 > u64::MAX
}

pub open spec fn sat_sub_nat(a: nat, b: nat) -> nat {
    if a >= b {
        (a - b) as nat
    } else {
        0
    }
}

/// The random-access memory of a board: used is total less available, or,
/// when more is available than there is, total less free, buffers and cache.
pub open spec fn ram_of(m: MeminfoKb) -> MemoryInfo {
    let used_kb: nat = if m.mem_available <= m.mem_total {
        (m.mem_total - m.mem_available) as nat
    } else {
        sat_sub_nat(sat_sub_nat(sat_sub_nat(m.mem_total as nat, m.mem_free as nat), m.buffers as nat), m.cached as nat)
    };
    MemoryInfo {
        total: (m.mem_total * 1024) as u64,
        used: (used_kb * 1024) as u64,
        free: (m.mem_available * 1024) as u64,
        cached: (m.cached * 1024) as u64,
        buffers: (m.buffers * 1024) as u64,
    }
}

/// The swap space of a board.
pub open spec fn swap_of(m: MeminfoKb) -> MemoryInfo {
    MemoryInfo {
        total: (m.swap_total * 1024) as u64,
        used: sat_sub_nat((m.swap_total * 1024) as nat, (m.swap_free * 1024) as nat) as u64,
        free: (m.swap_free * 1024) as u64,
        cached: 0,
        buffers: 0,
    }
}

/// The memory of the board from the contents of `/proc/meminfo` and the
/// readings of the compressed swap device and the memory controller; `None`
/// exactly when a field in bytes exceeds `u64`.
pub fn memory_stats(meminfo: &str, zram: Option<ZramInfo>, emc: Option<EmcInfo>) -> (r: Option<
    MemoryStats,
>)
    ensures
        r is None <==> meminfo_overflows(meminfo_of(meminfo@)),
        r matches Some(s) ==> {
            &&& s.ram == ram_of(meminfo_of(meminfo@))
            &&& s.swap == swap_of(meminfo_of(meminfo@))
            &&& s.zram == zram
            &&& s.emc == emc
        },
{
    let m = parse_meminfo(meminfo);
    if m.mem_total > u64::MAX / 1024 || m.mem_available > u64::MAX / 1024 || m.cached > u64::MAX
        / 1024 || m.buffers > u64::MAX / 1024 || m.swap_total > u64::MAX / 1024 || m.swap_free
        > u64::MAX / 1024 {
        return None;
    }
    let used_kb: u64 = if m.mem_available <= m.mem_total {
        m.mem_total - m.mem_available
    } else {
        m.mem_total.saturating_sub(m.mem_free).saturating_sub(m.buffers).saturating_sub(m.cached)
    };
    let ram = MemoryInfo {
        total: m.mem_total * 1024,
        used: used_kb * 1024,
        free: m.mem_available * 1024,
        cached: m.cached * 1024,
        buffers: m.buffers * 1024,
    };
    let swap_total = m.swap_total * 1024;
    let swap_free = m.swap_free * 1024;
    let swap = MemoryInfo {
        total: swap_total,
        used: swap_total.saturating_sub(swap_free),
        free: swap_free,
        cached: 0,
        buffers: 0,
    };
    Some(MemoryStats { ram, swap, zram, emc })
}

/// The compressed swap device from the contents of its `mm_stat` file:
/// the first two numbers (original and compressed size), zero where missing.
pub open spec fn zram_of_mm_stat(content: Seq<char>) -> ZramInfo {
    let w = words(content);
    ZramInfo {
        total: if w.len() >= 1 && parse_u64(w[0]) is Some {
            parse_u64(w[0]).unwrap()
        } else {
            0
        },
        used: if w.len() >= 2 && parse_u64(w[1]) is Some {
            parse_u64(w[1]).unwrap()
        } else {
            0
        },
    }
}

/// Reads the compressed swap device's `mm_stat` file.
pub fn parse_zram_mm_stat(content: &str) -> (r: ZramInfo)
    ensures
        r == zram_of_mm_stat(content@),
{
    let w = split_words(&chars_of(content));
    proof {
        assert(views(w@).len() == w@.len());
    }
    let total: u64 = if w.len() >= 1 {
        proof {
            assert(views(w@)[0] == w@[0]@);
        }
        match parse_u64_chars(&w[0]) {
            Some(v) => v,
            None => 0,
        }
    } else {
        0
    };
    let used: u64 = if w.len() >= 2 {
        proof {
            assert(views(w@)[1] == w@[1]@);
        }
        match parse_u64_chars(&w[1]) {
            Some(v) => v,
            None => 0,
        }
    } else {
        0
    };
    ZramInfo { total, used }
}

/// Reads the compressed swap device's `disksize` file: its size, nothing
/// used.
pub fn parse_zram_disksize(content: &str) -> (r: ZramInfo)
    ensures
        r.total == (match parse_u64(trim(content@)) {
            Some(v) => v,
            None => 0,
        }),
        r.used == 0,
{
    let total = match parse_trimmed_u64(content) {
        Some(v) => v,
        None => 0,
    };
    ZramInfo { total, used: 0 }
}

} // verus!
