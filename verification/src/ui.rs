//! The pages of the terminal front end and the text it shows that does not
//! involve floating point.

use vstd::prelude::*;

use crate::hardware::jetson::BoardInfo;
use crate::text::{chars_of, decimal, push_decimal, push_str, string_of};

verus! {

/// The pages of the terminal front end, in the order in which they are shown.
#[derive(Debug, Clone, Copy, PartialEq, Eq, Structural)]
pub enum Tab {
    All,
    Cpu,
    Gpu,
    Memory,
    Engine,
    Control,
    Info,
}

/// Number of pages.
pub const TAB_COUNT: usize = 7;

/// Position of a page in the tab bar.
pub open spec fn tab_index(t: Tab) -> nat {
    match t {
        Tab::All => 0,
        Tab::Cpu => 1,
        Tab::Gpu => 2,
        Tab::Memory => 3,
        Tab::Engine => 4,
        Tab::Control => 5,
        Tab::Info => 6,
    }
}

/// The page at a position of the tab bar (`Info` past the end).
pub open spec fn tab_at(i: int) -> Tab {
    if i == 0 {
        Tab::All
    } else if i == 1 {
        Tab::Cpu
    } else if i == 2 {
        Tab::Gpu
    } else if i == 3 {
        Tab::Memory
    } else if i == 4 {
        Tab::Engine
    } else if i == 5 {
        Tab::Control
    } else {
        Tab::Info
    }
}

/// The title shown for a page in the tab bar.
pub open spec fn tab_title(t: Tab) -> Seq<char> {
    match t {
        Tab::All => "ALL"@,
        Tab::Cpu => "CPU"@,
        Tab::Gpu => "GPU"@,
        Tab::Memory => "MEM"@,
        Tab::Engine => "ENGINE"@,
        Tab::Control => "CTRL"@,
        Tab::Info => "INFO"@,
    }
}

impl Tab {
    /// All pages, in tab-bar order.
    pub fn all_tabs() -> (tabs: [Tab; 7])
        ensures
            forall|i: int| 0 <= i < 7 ==> #[trigger] tabs@[i] == tab_at(i),
    {
        [Tab::All, Tab::Cpu, Tab::Gpu, Tab::Memory, Tab::Engine, Tab::Control, Tab::Info]
    }

    pub fn title(&self) -> (s: &'static str)
        ensures
            s@ == tab_title(*self),
    {
        match self {
            Tab::All => "ALL",
            Tab::Cpu => "CPU",
            Tab::Gpu => "GPU",
            Tab::Memory => "MEM",
            Tab::Engine => "ENGINE",
            Tab::Control => "CTRL",
            Tab::Info => "INFO",
        }
    }

    pub fn index(&self) -> (i: usize)
        ensures
            i == tab_index(*self),
            i < TAB_COUNT,
    {
        match self {
            Tab::All => 0,
            Tab::Cpu => 1,
            Tab::Gpu => 2,
            Tab::Memory => 3,
            Tab::Engine => 4,
            Tab::Control => 5,
            Tab::Info => 6,
        }
    }

    /// The page at position `i` of the tab bar.
    pub fn from_index(i: usize) -> (t: Tab)
        requires
            i < TAB_COUNT,
        ensures
            t == tab_at(i as int),
            tab_index(t) == i,
    {
        match i {
            0 => Tab::All,
            1 => Tab::Cpu,
            2 => Tab::Gpu,
            3 => Tab::Memory,
            4 => Tab::Engine,
            5 => Tab::Control,
            _ => Tab::Info,
        }
    }
}

/// Each page stands at its own index in the tab bar.
pub proof fn lemma_tab_at_index(t: Tab)
    ensures
        tab_at(tab_index(t) as int) == t,
        tab_index(t) < TAB_COUNT,
{
}


/// The page after `t`, the last one wrapping around to the first.
pub open spec fn next_of(t: Tab) -> Tab {
    tab_at(((tab_index(t) as int) + 1) % (TAB_COUNT as int))
}

/// The page before `t`, the first one wrapping around to the last.
pub open spec fn prev_of(t: Tab) -> Tab {
    if tab_index(t) == 0 {
        tab_at(TAB_COUNT - 1)
    } else {
        tab_at(tab_index(t) - 1)
    }
}

/// `next_of` applied `n` times.
pub open spec fn next_n(t: Tab, n: nat) -> Tab
    decreases n,
{
    if n == 0 {
        t
    } else {
        next_of(next_n(t, (n - 1) as nat))
    }
}

/// Going to the previous page undoes going to the next one, and the other
/// way round.
pub proof fn lemma_prev_undoes_next(t: Tab)
    ensures
        prev_of(next_of(t)) == t,
        next_of(prev_of(t)) == t,
{
}

/// Going to the next page as many times as there are pages comes back to the
/// page one started from.
pub proof fn lemma_next_cycles(t: Tab)
    ensures
        next_n(t, TAB_COUNT as nat) == t,
{
    reveal_with_fuel(next_n, 8);
}

// ---------------------------------------------------------------------------
// Texts
// ---------------------------------------------------------------------------

/// An uptime as "Xd Yh Zm Ws", leaving out the leading zero units; "N/A"
/// for zero.
pub open spec fn uptime_text(seconds: nat) -> Seq<char> {
    let days = seconds / 86400;
    let hours = (seconds % 86400) / 3600;
    let minutes = (seconds % 3600) / 60;
    let secs = seconds % 60;
    if seconds == 0 {
        "N/A"@
    } else if days > 0 {
        decimal(days) + "d "@ + decimal(hours) + "h "@ + decimal(minutes) + "m "@ + decimal(secs)
            + "s"@
    } else if hours > 0 {
        decimal(hours) + "h "@ + decimal(minutes) + "m "@ + decimal(secs) + "s"@
    } else if minutes > 0 {
        decimal(minutes) + "m "@ + decimal(secs) + "s"@
    } else {
        decimal(secs) + "s"@
    }
}

/// Writes an uptime (see `uptime_text`).
pub fn format_uptime(seconds: u64) -> (r: String)
    ensures
        r@ == uptime_text(seconds as nat),
{
    if seconds == 0 {
        return String::from_str("N/A");
    }
    let days = seconds / 86400;
    let hours = (seconds % 86400) / 3600;
    let minutes = (seconds % 3600) / 60;
    let secs = seconds % 60;
    let mut v: Vec<char> = Vec::new();
    if days > 0 {
        push_decimal(&mut v, days);
        push_str(&mut v, "d ");
    }
    if days > 0 || hours > 0 {
        push_decimal(&mut v, hours);
        push_str(&mut v, "h ");
    }
    if days > 0 || hours > 0 || minutes > 0 {
        push_decimal(&mut v, minutes);
        push_str(&mut v, "m ");
    }
    push_decimal(&mut v, secs);
    push_str(&mut v, "s");
    proof {
        let s = seconds as nat;
        if days > 0 {
            assert(v@ =~= decimal(s / 86400) + "d "@ + decimal((s % 86400) / 3600) + "h "@
                + decimal((s % 3600) / 60) + "m "@ + decimal(s % 60) + "s"@);
        } else if hours > 0 {
            assert(v@ =~= decimal((s % 86400) / 3600) + "h "@ + decimal((s % 3600) / 60) + "m "@
                + decimal(s % 60) + "s"@);
        } else if minutes > 0 {
            assert(v@ =~= decimal((s % 3600) / 60) + "m "@ + decimal(s % 60) + "s"@);
        } else {
            assert(v@ =~= decimal(s % 60) + "s"@);
        }
    }
    string_of(v.as_slice())
}

/// A text as the information page shows it: the text itself, or `fallback`
/// when it is empty.
pub open spec fn shown_text(s: Seq<char>, fallback: Seq<char>) -> Seq<char> {
    if s.len() == 0 {
        fallback
    } else {
        s
    }
}

/// Shows a text, or `fallback` when it is empty (see `shown_text`).
pub fn shown(s: &String, fallback: &str) -> (r: String)
    ensures
        r@ == shown_text(s@, fallback@),
{
    if s.as_str().is_empty() {
        string_of(chars_of(fallback).as_slice())
    } else {
        s.clone()
    }
}

/// The values that the board block of the information page shows.
pub struct BoardDisplay {
    pub model: String,
    pub serial: String,
    pub hostname: String,
    pub l4t: String,
    pub jetpack: String,
    pub cuda: String,
    pub kernel: String,
    pub uptime: String,
}

/// The values shown for a board: its model, or "Unknown" when it has none;
/// "N/A" for each other text it lacks; its uptime written out (see
/// `uptime_text`).
pub fn board_display(b: &BoardInfo) -> (r: BoardDisplay)
    ensures
        r.model@ == shown_text(b.model@, "Unknown"@),
        r.serial@ == shown_text(b.serial@, "N/A"@),
        r.hostname@ == shown_text(b.hostname@, "N/A"@),
        r.l4t@ == shown_text(b.l4t_version@, "N/A"@),
        r.jetpack@ == shown_text(b.jetpack_version@, "N/A"@),
        r.cuda@ == shown_text(b.cuda_version@, "N/A"@),
        r.kernel@ == shown_text(b.kernel_version@, "N/A"@),
        r.uptime@ == uptime_text(b.uptime as nat),
{
    BoardDisplay {
        model: shown(&b.model, "Unknown"),
        serial: shown(&b.serial, "N/A"),
        hostname: shown(&b.hostname, "N/A"),
        l4t: shown(&b.l4t_version, "N/A"),
        jetpack: shown(&b.jetpack_version, "N/A"),
        cuda: shown(&b.cuda_version, "N/A"),
        kernel: shown(&b.kernel_version, "N/A"),
        uptime: format_uptime(b.uptime),
    }
}

/// `n` copies of a character.
pub open spec fn repeat(c: char, n: nat) -> Seq<char> {
    Seq::new(n, |i: int| c)
}

/// A bar of `width` cells, the first `percent * width / 100` of them full
/// ('█') and the rest light ('░').
pub open spec fn bar_text(percent: nat, width: nat) -> Seq<char> {
    let filled = percent * width / 100;
    repeat('\u{2588}', filled) + repeat('\u{2591}', (width - filled) as nat)
}

/// Draws a bar (see `bar_text`); the filled part must fit in the width.
pub fn build_bar(percent: u8, width: usize) -> (r: String)
    requires
        percent as nat * width <= usize::MAX,
        percent as nat * width / 100 <= width,
    ensures
        r@ == bar_text(percent as nat, width as nat),
{
    let filled = (percent as usize * width) / 100;
    let empty = width - filled;
    let mut v: Vec<char> = Vec::new();
    let mut i: usize = 0;
    while i < filled
        invariant
            i <= filled,
            v@ == repeat('\u{2588}', i as nat),
        decreases filled - i,
    {
        v.push('\u{2588}');
        i = i + 1;
        assert(v@ =~= repeat('\u{2588}', i as nat));
    }
    let mut j: usize = 0;
    while j < empty
        invariant
            j <= empty,
            i == filled,
            v@ == repeat('\u{2588}', filled as nat) + repeat('\u{2591}', j as nat),
        decreases empty - j,
    {
        v.push('\u{2591}');
        j = j + 1;
        assert(v@ =~= repeat('\u{2588}', filled as nat) + repeat('\u{2591}', j as nat));
    }
    string_of(v.as_slice())
}

/// The fan speed that the control page shows, in percent: the duty cycle
/// over its range (255 when the range is zero), at most 100.
pub open spec fn pwm_percent_of(pwm: nat, pwm_max: nat) -> nat {
    let range = if pwm_max == 0 {
        255
    } else {
        pwm_max
    };
    let p = pwm * 100 / range;
    if p > 100 {
        100
    } else {
        p
    }
}

/// The fan speed in percent (see `pwm_percent_of`); the duty cycle times 100
/// must fit in a `u32`.
pub fn pwm_percent(pwm: u32, pwm_max: u32) -> (r: u8)
    requires
        pwm * 100 <= u32::MAX,
    ensures
        r == pwm_percent_of(pwm as nat, pwm_max as nat),
{
    let range = if pwm_max == 0 {
        255
    } else {
        pwm_max
    };
    let p = pwm * 100 / range;
    if p > 100 {
        100
    } else {
        p as u8
    }
}


/// The parts of a written uptime put back together give the seconds it was
/// written from, each part within its unit.
pub proof fn lemma_uptime_parts(seconds: nat)
    ensures
        ({
            let days = seconds / 86400;
            let hours = (seconds % 86400) / 3600;
            let minutes = (seconds % 3600) / 60;
            let secs = seconds % 60;
            &&& days * 86400 + hours * 3600 + minutes * 60 + secs == seconds
            &&& hours < 24 && minutes < 60 && secs < 60
        }),
{
    let days = seconds / 86400;
    let r1 = seconds % 86400;
    let hours = r1 / 3600;
    let r2 = seconds % 3600;
    assert(seconds == days * 86400 + r1) by (nonlinear_arith)
        requires
            days == seconds / 86400,
            r1 == seconds % 86400,
    ;
    assert(r1 == hours * 3600 + r1 % 3600) by (nonlinear_arith)
        requires
            hours == r1 / 3600,
    ;
    assert(r1 % 3600 == r2) by (nonlinear_arith)
        requires
            r1 == seconds % 86400,
            r2 == seconds % 3600,
    ;
    assert(r2 == (r2 / 60) * 60 + r2 % 60) by (nonlinear_arith);
    assert(86400 * days + 3600 * hours + r2 == seconds);
    assert(r2 % 60 == seconds % 60) by (nonlinear_arith)
        requires
            r2 == seconds % 3600,
    ;
    assert(hours < 24) by (nonlinear_arith)
        requires
            r1 < 86400,
            hours == r1 / 3600,
    ;
    assert(r2 / 60 < 60) by (nonlinear_arith)
        requires
            r2 < 3600,
    ;
}

/// A bar has exactly as many cells as its width, whenever its full cells fit
/// in that width.
pub proof fn lemma_bar_width(percent: nat, width: nat)
    requires
        percent * width / 100 <= width,
    ensures
        bar_text(percent, width).len() == width,
{
}

} // verus!
