use jtop::app::{App, Key, MAX_HISTORY};
use jtop::hardware::JetsonStats;
use jtop::ui::{build_bar, format_uptime, pwm_percent, Tab};

fn stats_with_uptime(uptime: u64) -> JetsonStats {
    let mut s = JetsonStats::default();
    s.board.uptime = uptime;
    s
}

#[test]
fn app_new_starts_on_all_tab() {
    let app = App::new();
    assert!(app.running);
    assert_eq!(app.current_tab, Tab::All);
    assert!(app.stats_history.is_empty());
    assert_eq!(app.max_history, 120);
    assert_eq!(MAX_HISTORY, 120);
    assert_eq!(app.stats, JetsonStats::default());
}

#[test]
fn next_tab_walks_in_order_and_wraps() {
    let mut app = App::new();
    let expected = [Tab::Cpu, Tab::Gpu, Tab::Memory, Tab::Engine, Tab::Control, Tab::Info, Tab::All];
    for t in expected {
        app.next_tab();
        assert_eq!(app.current_tab, t);
    }
}

#[test]
fn prev_tab_wraps_from_first_to_last() {
    let mut app = App::new();
    app.prev_tab();
    assert_eq!(app.current_tab, Tab::Info);
    app.prev_tab();
    assert_eq!(app.current_tab, Tab::Control);
}

#[test]
fn prev_tab_undoes_next_tab_on_every_page() {
    for t in Tab::all_tabs() {
        let mut app = App::new();
        app.current_tab = t;
        app.next_tab();
        app.prev_tab();
        assert_eq!(app.current_tab, t);
        app.prev_tab();
        app.next_tab();
        assert_eq!(app.current_tab, t);
    }
}

#[test]
fn update_stats_files_previous_snapshot() {
    let mut app = App::new();
    app.update_stats(stats_with_uptime(1));
    assert_eq!(app.stats.board.uptime, 1);
    assert_eq!(app.stats_history.len(), 1);
    assert_eq!(app.stats_history[0].board.uptime, 0);
    app.update_stats(stats_with_uptime(2));
    assert_eq!(app.stats.board.uptime, 2);
    assert_eq!(app.stats_history.len(), 2);
    assert_eq!(app.stats_history[1].board.uptime, 1);
}

#[test]
fn update_stats_keeps_history_bounded() {
    let mut app = App::new();
    app.max_history = 3;
    for i in 1..=10u64 {
        app.update_stats(stats_with_uptime(i));
        assert!(app.stats_history.len() <= 3);
    }
    let kept: Vec<u64> = app.stats_history.iter().map(|s| s.board.uptime).collect();
    assert_eq!(kept, vec![7, 8, 9]);
    assert_eq!(app.stats.board.uptime, 10);
}

#[test]
fn update_stats_default_bound_is_120() {
    let mut app = App::new();
    for i in 1..=200u64 {
        app.update_stats(stats_with_uptime(i));
    }
    assert_eq!(app.stats_history.len(), 120);
    assert_eq!(app.stats_history[0].board.uptime, 80);
    assert_eq!(app.stats_history[119].board.uptime, 199);
}

#[test]
fn keys_quit_navigate_and_select() {
    let mut app = App::new();
    app.handle_key(Key::Char('3'));
    assert_eq!(app.current_tab, Tab::Gpu);
    app.handle_key(Key::Char('7'));
    assert_eq!(app.current_tab, Tab::Info);
    app.handle_key(Key::Char('1'));
    assert_eq!(app.current_tab, Tab::All);
    app.handle_key(Key::Right);
    assert_eq!(app.current_tab, Tab::Cpu);
    app.handle_key(Key::Tab);
    assert_eq!(app.current_tab, Tab::Gpu);
    app.handle_key(Key::Left);
    assert_eq!(app.current_tab, Tab::Cpu);
    app.handle_key(Key::BackTab);
    assert_eq!(app.current_tab, Tab::All);
    app.handle_key(Key::Char('8'));
    app.handle_key(Key::Char('x'));
    app.handle_key(Key::Other);
    assert_eq!(app.current_tab, Tab::All);
    assert!(app.running);
    app.handle_key(Key::Char('q'));
    assert!(!app.running);
    let mut app2 = App::new();
    app2.handle_key(Key::Esc);
    assert!(!app2.running);
}

#[test]
fn tab_titles_and_indices() {
    let tabs = Tab::all_tabs();
    let titles: Vec<&str> = tabs.iter().map(|t| t.title()).collect();
    assert_eq!(titles, vec!["ALL", "CPU", "GPU", "MEM", "ENGINE", "CTRL", "INFO"]);
    for (i, t) in Tab::all_tabs().iter().enumerate() {
        assert_eq!(t.index(), i);
        assert_eq!(Tab::from_index(i), *t);
    }
}

#[test]
fn uptime_is_written_by_units() {
    assert_eq!(format_uptime(0), "N/A");
    assert_eq!(format_uptime(59), "59s");
    assert_eq!(format_uptime(60), "1m 0s");
    assert_eq!(format_uptime(3600), "1h 0m 0s");
    assert_eq!(format_uptime(3725), "1h 2m 5s");
    assert_eq!(format_uptime(86400), "1d 0h 0m 0s");
    assert_eq!(format_uptime(90061), "1d 1h 1m 1s");
    assert_eq!(format_uptime(u64::MAX), "213503982334601d 7h 0m 15s");
}

#[test]
fn bars_fill_by_percent() {
    assert_eq!(build_bar(0, 4), "░░░░");
    assert_eq!(build_bar(50, 4), "██░░");
    assert_eq!(build_bar(100, 4), "████");
    assert_eq!(build_bar(33, 12), "███░░░░░░░░░");
    assert_eq!(build_bar(0, 12).chars().count(), 12);
    assert_eq!(build_bar(40, 0), "");
}

#[test]
fn fan_percent_uses_range_and_caps() {
    assert_eq!(pwm_percent(128, 255), 50);
    assert_eq!(pwm_percent(255, 255), 100);
    assert_eq!(pwm_percent(255, 0), 100);
    assert_eq!(pwm_percent(51, 0), 20);
    assert_eq!(pwm_percent(300, 255), 100);
    assert_eq!(pwm_percent(0, 255), 0);
}

#[test]
fn history_is_a_sliding_window_of_the_last_snapshots() {
    let mut app = App::new();
    for n in 1..=130u64 {
        app.update_stats(stats_with_uptime(n));
    }
    assert_eq!(app.stats.board.uptime, 130);
    assert_eq!(app.stats_history.len(), 120);
    let kept: Vec<u64> = app.stats_history.iter().map(|s| s.board.uptime).collect();
    assert_eq!(kept, (10..130u64).collect::<Vec<u64>>());

    let mut fresh = App::new();
    for n in 1..=3u64 {
        fresh.update_stats(stats_with_uptime(n));
    }
    let kept: Vec<u64> = fresh.stats_history.iter().map(|s| s.board.uptime).collect();
    assert_eq!(kept, vec![0, 1, 2]);
}
