use jtop::hardware::cpu::{cpu_governor, CpuCore};
use jtop::hardware::memory::memory_stats;
use jtop::hardware::process::user_name;
use jtop::hardware::temperature::{engine_zone, first_name_containing, sort_zone_names, thermal_zone};
use jtop::remote::parse_memory_section;
use jtop::text::parse_trimmed_u64;
use jtop::ui::{build_bar, format_uptime, Tab};
use jtop::app::App;

fn make_core(id: u32, online: bool, governor: &str) -> CpuCore {
    CpuCore {
        id,
        online,
        idle_delta: 0,
        total_delta: 0,
        freq_cur: 0,
        freq_min: 0,
        freq_max: 0,
        governor: governor.to_string(),
    }
}

#[test]
fn governor_of_first_online_core_that_names_one() {
    let cores = vec![make_core(0, true, ""), make_core(1, false, "powersave"), make_core(2, true, "schedutil"), make_core(3, true, "performance")];
    assert_eq!(cpu_governor(&cores), "schedutil");
    assert_eq!(cpu_governor(&vec![make_core(0, false, "x")]), "unknown");
    assert_eq!(cpu_governor(&vec![]), "unknown");
}

#[test]
fn engine_zone_matches_case_insensitively() {
    let zones = vec![
        thermal_zone("40000", Some("cpu-thermal"), &vec![]).unwrap(),
        thermal_zone("41000", Some("soc-nvdec-thermal"), &vec![]).unwrap(),
        thermal_zone("42000", Some("NVDEC"), &vec![]).unwrap(),
    ];
    assert_eq!(engine_zone(&zones, "NVDEC"), Some(1));
    assert_eq!(engine_zone(&zones, "nvdec"), Some(1));
    assert_eq!(engine_zone(&zones, "CPU"), Some(0));
    assert_eq!(engine_zone(&zones, "OFA"), None);
}

#[test]
fn first_name_containing_is_case_sensitive_and_takes_the_first() {
    let names = vec!["CPU-THERM".to_string(), "SOC-NVDEC".to_string(), "NVDEC".to_string()];
    assert_eq!(first_name_containing(&names, "NVDEC"), Some(1));
    assert_eq!(first_name_containing(&names, "nvdec"), None);
    assert_eq!(first_name_containing(&names, ""), Some(0));
    assert_eq!(first_name_containing(&vec![], "CPU"), None);
}

#[test]
fn local_and_remote_readers_agree_on_memory() {
    let text = "MemTotal: 8000 kB\nMemFree: 1000 kB\nMemAvailable: 5000 kB\nBuffers: 10 kB\nCached: 20 kB\nSwapTotal: 300 kB\nSwapFree: 100 kB\n";
    let local = memory_stats(text, None, None).unwrap();
    let remote = parse_memory_section(text).unwrap();
    assert_eq!(local.ram, remote.ram);
    assert_eq!(local.swap, remote.swap);
    let odd = "MemTotal: 8000 kB\nMemAvailable: 9000 kB\nSwapTotal: 100 kB\nSwapFree: 300 kB\n";
    assert_eq!(memory_stats(odd, None, None).unwrap().swap, parse_memory_section(odd).unwrap().swap);
}

#[test]
fn written_numbers_read_back() {
    for n in [0u32, 7, 10, 99, 1000, 4242, u32::MAX] {
        assert_eq!(parse_trimmed_u64(&user_name(&vec![], n)), Some(n as u64));
    }
}

#[test]
fn zone_order_is_stable_and_idempotent() {
    let names: Vec<String> = ["thermal_zone3", "thermal_zonea", "thermal_zone0", "thermal_zone3", "thermal_zoneb"]
        .iter()
        .map(|s| s.to_string())
        .collect();
    let once = sort_zone_names(names);
    assert_eq!(once, vec!["thermal_zone0", "thermal_zone3", "thermal_zone3", "thermal_zonea", "thermal_zoneb"]);
    assert_eq!(sort_zone_names(once.clone()), once);
}

#[test]
fn seven_next_tabs_come_back() {
    for t in Tab::all_tabs() {
        let mut app = App::new();
        app.current_tab = t;
        for _ in 0..7 {
            app.next_tab();
        }
        assert_eq!(app.current_tab, t);
    }
}

#[test]
fn uptime_parts_recombine() {
    for s in [1u64, 61, 3661, 90061, 1_000_000, 123_456_789] {
        let text = format_uptime(s);
        let mut total = 0u64;
        for part in text.split(' ') {
            let (num, unit) = part.split_at(part.len() - 1);
            let v: u64 = num.parse().unwrap();
            total += v * match unit {
                "d" => 86400,
                "h" => 3600,
                "m" => 60,
                _ => 1,
            };
        }
        assert_eq!(total, s);
    }
}

#[test]
fn bars_are_as_wide_as_asked() {
    for p in [0u8, 1, 50, 99, 100] {
        for w in [0usize, 1, 7, 12, 40] {
            assert_eq!(build_bar(p, w).chars().count(), w);
        }
    }
}
