//! The state of the terminal front end and how it answers the keyboard.

use vstd::prelude::*;

use crate::hardware::{is_blank, JetsonStats};
use crate::ui::{next_of, prev_of, tab_at, tab_index, Tab, TAB_COUNT};

verus! {

/// How many past snapshots the front end keeps (a minute at the default
/// refresh interval).
pub const MAX_HISTORY: usize = 120;

/// The state of the front end.
pub struct App {
    pub running: bool,
    pub current_tab: Tab,
    pub stats: JetsonStats,
    /// Past snapshots, oldest first.
    pub stats_history: Vec<JetsonStats>,
    pub max_history: usize,
}

/// A key press, as far as the front end tells keys apart.
#[derive(Debug, Clone, Copy, PartialEq, Eq)]
pub enum Key {
    Char(char),
    Esc,
    Tab,
    BackTab,
    Left,
    Right,
    Other,
}

/// The history after a new snapshot replaces `current`: `current` appended,
/// and the oldest entry dropped when that makes it longer than `max`.
pub open spec fn history_after(history: Seq<JetsonStats>, current: JetsonStats, max: nat) -> Seq<
    JetsonStats,
> {
    let h = history.push(current);
    if h.len() > max {
        h.drop_first()
    } else {
        h
    }
}

/// The page that a digit key selects: '1' to '7' select the pages in
/// tab-bar order.
pub open spec fn digit_tab(c: char) -> Option<Tab> {
    if '1' <= c && c <= '7' {
        Some(tab_at(c as int - '1' as int))
    } else {
        None
    }
}

/// The state after a key press: 'q' and Esc stop the front end; Tab and
/// Right go to the next page, BackTab and Left to the previous one; the
/// digits 1 to 7 select a page; other keys change nothing.
pub open spec fn after_key(a: App, key: Key) -> (bool, Tab) {
    match key {
        Key::Char(c) => if c == 'q' {
            (false, a.current_tab)
        } else {
            match digit_tab(c) {
                Some(t) => (a.running, t),
                None => (a.running, a.current_tab),
            }
        },
        Key::Esc => (false, a.current_tab),
        Key::Tab | Key::Right => (a.running, next_of(a.current_tab)),
        Key::BackTab | Key::Left => (a.running, prev_of(a.current_tab)),
        Key::Other => (a.running, a.current_tab),
    }
}

impl App {
    pub fn new() -> (a: App)
        ensures
            a.running,
            a.current_tab == Tab::All,
            is_blank(a.stats),
            a.stats_history@.len() == 0,
            a.max_history == MAX_HISTORY,
    {
        App {
            running: true,
            current_tab: Tab::All,
            stats: JetsonStats::default(),
            stats_history: Vec::new(),
            max_history: MAX_HISTORY,
        }
    }

    pub fn next_tab(&mut self)
        ensures
            final(self).current_tab == next_of(old(self).current_tab),
            final(self).running == old(self).running,
            final(self).stats == old(self).stats,
            final(self).stats_history == old(self).stats_history,
            final(self).max_history == old(self).max_history,
    {
        let idx = self.current_tab.index();
        let next = (idx + 1) % TAB_COUNT;
        self.current_tab = Tab::from_index(next);
    }

    pub fn prev_tab(&mut self)
        ensures
            final(self).current_tab == prev_of(old(self).current_tab),
            final(self).running == old(self).running,
            final(self).stats == old(self).stats,
            final(self).stats_history == old(self).stats_history,
            final(self).max_history == old(self).max_history,
    {
        let idx = self.current_tab.index();
        let prev = if idx == 0 {
            TAB_COUNT - 1
        } else {
            idx - 1
        };
        self.current_tab = Tab::from_index(prev);
    }

    /// Makes `stats` the current snapshot and files the previous one in the
    /// history (see `history_after`).
    pub fn update_stats(&mut self, stats: JetsonStats)
        ensures
            final(self).stats == stats,
            final(self).stats_history@ == history_after(
                old(self).stats_history@,
                old(self).stats,
                old(self).max_history as nat,
            ),
            final(self).running == old(self).running,
            final(self).current_tab == old(self).current_tab,
            final(self).max_history == old(self).max_history,
    {
        let mut previous = stats;
        std::mem::swap(&mut self.stats, &mut previous);
        self.stats_history.push(previous);
        if self.stats_history.len() > self.max_history {
            self.stats_history.remove(0);
        }
    }

    /// Answers a key press (see `after_key`).
    pub fn handle_key(&mut self, key: Key)
        ensures
            (final(self).running, final(self).current_tab) == after_key(*old(self), key),
            final(self).stats == old(self).stats,
            final(self).stats_history == old(self).stats_history,
            final(self).max_history == old(self).max_history,
    {
        match key {
            Key::Char(c) => {
                if c == 'q' {
                    self.running = false;
                } else if '1' <= c && c <= '7' {
                    let i = (c as u32 - '1' as u32) as usize;
                    self.current_tab = Tab::from_index(i);
                }
            },
            Key::Esc => {
                self.running = false;
            },
            Key::Tab | Key::Right => self.next_tab(),
            Key::BackTab | Key::Left => self.prev_tab(),
            Key::Other => {},
        }
    }
}


/// The history never grows past its bound: filing a snapshot in a history
/// within the bound leaves it within the bound, with that snapshot last
/// (when the bound admits any) and the older entries in their order.
pub proof fn lemma_history_bounded(history: Seq<JetsonStats>, current: JetsonStats, max: nat)
    requires
        history.len() <= max,
    ensures
        history_after(history, current, max).len() <= max,
        max > 0 ==> history_after(history, current, max).last() == current,
        history_after(history, current, max) == history.push(current).skip(
            history.push(current).len() - history_after(history, current, max).len(),
        ),
{
    let h = history.push(current);
    if h.len() > max {
        assert(h.drop_first() =~= h.skip(1));
    } else {
        assert(h.skip(0) =~= h);
    }
}

/// The state (current snapshot, history) after `updates` are filed in turn
/// by `update_stats` (see `history_after`), from `stats` and `history`.
pub open spec fn after_updates(
    stats: JetsonStats,
    history: Seq<JetsonStats>,
    updates: Seq<JetsonStats>,
    max: nat,
) -> (JetsonStats, Seq<JetsonStats>)
    decreases updates.len(),
{
    if updates.len() == 0 {
        (stats, history)
    } else {
        let (s, h) = after_updates(stats, history, updates.drop_last(), max);
        (updates.last(), history_after(h, s, max))
    }
}

/// The last `max` entries of `q` (all of them when there are fewer).
pub open spec fn last_window(q: Seq<JetsonStats>, max: nat) -> Seq<JetsonStats> {
    if q.len() <= max {
        q
    } else {
        q.skip(q.len() - max)
    }
}

proof fn lemma_window_step(q: Seq<JetsonStats>, x: JetsonStats, max: nat)
    ensures
        history_after(last_window(q, max), x, max) == last_window(q.push(x), max),
{
    let w = last_window(q, max);
    if q.len() < max {
        assert(w == q);
    } else {
        assert(w.push(x).len() == max + 1);
        assert(w.push(x).drop_first() =~= q.push(x).skip(q.push(x).len() - max));
    }
}

/// The history is a sliding window: from a history within its bound, after
/// any updates the current snapshot is the last one filed, and the history
/// holds the last `max` of the earlier snapshots (the starting history, the
/// starting snapshot and all updates but the last), oldest first.
pub proof fn lemma_history_window(
    stats: JetsonStats,
    history: Seq<JetsonStats>,
    updates: Seq<JetsonStats>,
    max: nat,
)
    requires
        history.len() <= max,
        updates.len() > 0,
    ensures
        after_updates(stats, history, updates, max).0 == updates.last(),
        after_updates(stats, history, updates, max).1 == last_window(
            history.push(stats) + updates.drop_last(),
            max,
        ),
        after_updates(stats, history, updates, max).1.len() == if history.len() + updates.len()
            <= max {
            history.len() + updates.len()
        } else {
            max
        },
    decreases updates.len(),
{
    let q = history.push(stats) + updates.drop_last();
    let u = updates.drop_last();
    let prev = after_updates(stats, history, u, max);
    assert(after_updates(stats, history, updates, max) == (updates.last(), history_after(
        prev.1,
        prev.0,
        max,
    )));
    if updates.len() == 1 {
        assert(u =~= Seq::<JetsonStats>::empty());
        assert(prev == (stats, history));
        assert(q =~= history.push(stats));
        assert(last_window(history, max) == history);
        lemma_window_step(history, stats, max);
    } else {
        lemma_history_window(stats, history, u, max);
        let q0 = history.push(stats) + u.drop_last();
        lemma_window_step(q0, u.last(), max);
        assert(q0.push(u.last()) =~= q);
    }
    assert(q.len() == history.len() + updates.len());
}

/// Tab and Right go to the page after the current one in the tab bar,
/// wrapping from the last page to the first; BackTab and Left go to the one
/// before, wrapping from the first to the last; none of them stops the
/// front end.
pub proof fn lemma_tab_keys(a: App)
    ensures
        after_key(a, Key::Tab).0 == a.running && after_key(a, Key::Right).0 == a.running,
        after_key(a, Key::BackTab).0 == a.running && after_key(a, Key::Left).0 == a.running,
        tab_index(after_key(a, Key::Tab).1) == (tab_index(a.current_tab) + 1) % 7,
        tab_index(after_key(a, Key::Right).1) == (tab_index(a.current_tab) + 1) % 7,
        tab_index(after_key(a, Key::BackTab).1) == (tab_index(a.current_tab) + 6) % 7,
        tab_index(after_key(a, Key::Left).1) == (tab_index(a.current_tab) + 6) % 7,
        a.current_tab == Tab::Info ==> after_key(a, Key::Tab).1 == Tab::All,
        a.current_tab == Tab::All ==> after_key(a, Key::BackTab).1 == Tab::Info,
{
}

/// 'q' and Esc stop the front end and leave the page as it is; a key the
/// front end does not use changes nothing.
pub proof fn lemma_quit_keys(a: App)
    ensures
        after_key(a, Key::Char('q')) == (false, a.current_tab),
        after_key(a, Key::Esc) == (false, a.current_tab),
        after_key(a, Key::Other) == (a.running, a.current_tab),
{
}

/// The digit keys select the pages in tab-bar order, and whatever key is
/// pressed the front end stays on one of its pages.
pub proof fn lemma_digit_keys(c: char)
    requires
        '1' <= c <= '7',
    ensures
        digit_tab(c) matches Some(t) && tab_index(t) == c as int - '1' as int,
{
}

} // verus!
