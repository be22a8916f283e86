use jtop::hardware::cpu::{cpu_core, parse_proc_stat, CpuTimes};
use jtop::hardware::fan::{detect_profile, fan_from_readings, is_fan_monitor_name, FanChannel};
use jtop::hardware::gpu::{first_load_reading, gpu_stats, GpuDevfreq, GpuError};
use jtop::hardware::memory::{
    memory_stats, parse_meminfo, parse_zram_disksize, parse_zram_mm_stat, ZramInfo,
};
use jtop::hardware::power::{is_power_monitor_name, rail_name};
use jtop::hardware::process::{
    parse_passwd, parse_pid_stat, parse_proc_status, parse_system_total, process_delta,
    sort_by_share, top_processes, user_name, ProcTicks, ProcessInfo,
};
use jtop::hardware::temperature::{
    is_thermal_zone_name, sort_zone_names, thermal_zone, thermal_zone_index, TripReading,
};

const PROC_STAT: &str = "cpu  100 0 50 800 50 0 0 0 0 0\n\
cpu0 60 0 30 400 10 0 0 0 0 0\n\
cpu1 40 0 20 400 40 0 0 0 0 0\n\
intr 12345 0 0\n\
ctxt 999\n";

#[test]
fn proc_stat_gives_per_core_counters() {
    let v = parse_proc_stat(PROC_STAT).unwrap();
    assert_eq!(
        v,
        vec![
            CpuTimes { id: 0, idle: 410, total: 500 },
            CpuTimes { id: 1, idle: 440, total: 500 },
        ]
    );
}

#[test]
fn proc_stat_skips_short_and_foreign_lines() {
    let text = "cpu0 1 2 3\ncpuX 1 2 3 4 5\ncpu2 1 2 x 4 5\ncpu3 1 2 3 4\ncpucpu4 1 1 1 1\n";
    let v = parse_proc_stat(text).unwrap();
    // "cpu0" has four words only, "cpu2" keeps four numeric counters,
    // "cpu3" has exactly four counters, "cpucpu4" loses every "cpu" prefix.
    assert_eq!(
        v,
        vec![
            CpuTimes { id: 2, idle: 5, total: 12 },
            CpuTimes { id: 3, idle: 4, total: 10 },
            CpuTimes { id: 4, idle: 1, total: 4 },
        ]
    );
}

#[test]
fn proc_stat_reports_counter_overflow() {
    let text = "cpu0 18446744073709551615 1 0 0 0\n";
    assert_eq!(parse_proc_stat(text), None);
    let text = "cpu0 18446744073709551614 1 0 0 0\n";
    assert_eq!(parse_proc_stat(text).unwrap()[0].total, u64::MAX);
}

#[test]
fn cpu_core_takes_deltas_and_sysfs_values() {
    let prev = vec![CpuTimes { id: 1, idle: 100, total: 200 }];
    let cur = vec![CpuTimes { id: 0, idle: 5, total: 9 }, CpuTimes { id: 1, idle: 150, total: 300 }];
    let c = cpu_core(1, Some("1\n"), Some(" 1500000\n"), Some("115200"), Some("2201600"), Some("schedutil\n"), &cur, &prev);
    assert_eq!(c.id, 1);
    assert!(c.online);
    assert_eq!((c.idle_delta, c.total_delta), (50, 100));
    assert_eq!((c.freq_cur, c.freq_min, c.freq_max), (1500000, 115200, 2201600));
    assert_eq!(c.governor, "schedutil");
    // Core 0 is online whatever its file says, and has no previous sample.
    let c0 = cpu_core(0, Some("0"), None, Some("bad"), None, None, &cur, &prev);
    assert!(c0.online);
    assert_eq!((c0.idle_delta, c0.total_delta), (0, 0));
    assert_eq!((c0.freq_cur, c0.freq_min, c0.freq_max), (0, 0, 0));
    assert_eq!(c0.governor, "");
    // An offline core, and counters that went backwards.
    let back = vec![CpuTimes { id: 2, idle: 10, total: 20 }];
    let older = vec![CpuTimes { id: 2, idle: 30, total: 25 }];
    let c2 = cpu_core(2, Some("0\n"), None, None, None, None, &back, &older);
    assert!(!c2.online);
    assert_eq!((c2.idle_delta, c2.total_delta), (0, 0));
}

#[test]
fn fan_profile_from_target_and_tach() {
    assert_eq!(detect_profile(Some("0\n"), None), "quiet");
    assert_eq!(detect_profile(Some("255"), None), "cool");
    assert_eq!(detect_profile(Some("200"), Some("0")), "cool");
    assert_eq!(detect_profile(Some("120"), None), "manual");
    assert_eq!(detect_profile(Some("garbage"), None), "quiet");
    assert_eq!(detect_profile(None, Some(" 0 \n")), "quiet");
    assert_eq!(detect_profile(None, Some("1")), "unknown");
    assert_eq!(detect_profile(None, None), "unknown");
}

fn ch(pwm: Option<&str>, rpm: Option<&str>) -> FanChannel {
    FanChannel { pwm: pwm.map(|s| s.to_string()), rpm: rpm.map(|s| s.to_string()) }
}

#[test]
fn fan_from_first_readable_channel() {
    let chans = vec![ch(None, None), ch(Some("x"), Some("10")), ch(Some("128\n"), Some("2400\n")), ch(Some("5"), None)];
    let f = fan_from_readings(Some("pwmfan\n"), "cool".to_string(), &chans).unwrap();
    assert_eq!(f.name, "pwmfan");
    assert_eq!(f.pwm, 128);
    assert_eq!(f.speed, 2400);
    assert_eq!(f.pwm_max, 255);
    assert_eq!(f.profile, "cool");
    let g = fan_from_readings(None, "unknown".to_string(), &chans).unwrap();
    assert_eq!(g.name, "Fan 3");
    let h = fan_from_readings(Some("  "), "unknown".to_string(), &vec![ch(Some("7"), Some("fast"))]).unwrap();
    assert_eq!(h.name, "Fan 1");
    assert_eq!(h.speed, 0);
    assert!(fan_from_readings(Some("fan"), "quiet".to_string(), &vec![ch(None, Some("1"))]).is_none());
}

#[test]
fn fan_and_power_monitor_names() {
    assert!(is_fan_monitor_name("pwm-fan"));
    assert!(is_fan_monitor_name("pwmfan"));
    assert!(!is_fan_monitor_name("ina3221"));
    assert!(is_power_monitor_name(Some("ina3221\n")));
    assert!(!is_power_monitor_name(Some("ina3221x")));
    assert!(!is_power_monitor_name(None));
    assert_eq!(rail_name(Some("VDD_IN\n"), 1), "VDD_IN");
    assert_eq!(rail_name(None, 3), "Rail 3");
}

#[test]
fn gpu_load_and_devfreq() {
    let loads = vec![None, Some("n/a".to_string()), Some("456\n".to_string())];
    let d = GpuDevfreq {
        cur_freq: Some("306000000\n".to_string()),
        min_freq: Some("306000000".to_string()),
        max_freq: Some("1300500000".to_string()),
        governor: Some("nvhost_podgov\n".to_string()),
    };
    let g = gpu_stats(&loads, Some(d), true, true).unwrap();
    assert_eq!(g.load, 456);
    assert_eq!((g.freq_cur, g.freq_min, g.freq_max), (306000000, 306000000, 1300500000));
    assert_eq!(g.governor, "nvhost_podgov");
    let none = gpu_stats(&vec![], None, false, false).unwrap();
    assert_eq!(none.load, 0);
    assert_eq!(none.governor, "");
    assert_eq!(gpu_stats(&vec![], None, true, false), Err(GpuError::GpuPathMissing));
    assert!(gpu_stats(&vec![Some("1".to_string())], None, true, false).is_ok());
}

#[test]
fn gpu_load_is_at_most_a_full_load() {
    let over = gpu_stats(&vec![Some("1500\n".to_string())], None, false, false).unwrap();
    assert_eq!(over.load, 1000);
    let full = gpu_stats(&vec![Some("1000".to_string())], None, false, false).unwrap();
    assert_eq!(full.load, 1000);
    assert_eq!(first_load_reading(&vec![None, Some("x".to_string()), Some(" 7 ".to_string())]), Some(7));
    assert_eq!(first_load_reading(&vec![None]), None);
}

const MEMINFO: &str = "MemTotal:       32000000 kB\n\
MemFree:         1000000 kB\n\
MemAvailable:   20000000 kB\n\
Buffers:          100000 kB\n\
Cached:          5000000 kB\n\
SwapCached:            0 kB\n\
SwapTotal:      16000000 kB\n\
SwapFree:       15000000 kB\n";

#[test]
fn meminfo_fields_and_memory() {
    let m = parse_meminfo(MEMINFO);
    assert_eq!(m.mem_total, 32000000);
    assert_eq!(m.cached, 5000000);
    assert_eq!(m.swap_free, 15000000);
    let z = Some(ZramInfo { total: 10, used: 5 });
    let s = memory_stats(MEMINFO, z, None).unwrap();
    assert_eq!(s.ram.total, 32000000 * 1024);
    assert_eq!(s.ram.used, 12000000 * 1024);
    assert_eq!(s.ram.free, 20000000 * 1024);
    assert_eq!(s.ram.cached, 5000000 * 1024);
    assert_eq!(s.ram.buffers, 100000 * 1024);
    assert_eq!(s.swap.total, 16000000 * 1024);
    assert_eq!(s.swap.used, 1000000 * 1024);
    assert_eq!(s.swap.free, 15000000 * 1024);
    assert_eq!(s.zram, z);
    assert_eq!(s.emc, None);
}

#[test]
fn memory_used_falls_back_without_available() {
    let text = "MemTotal: 1000 kB\nMemFree: 100 kB\nMemAvailable: 2000 kB\nBuffers: 50 kB\nCached: 200 kB\n";
    let s = memory_stats(text, None, None).unwrap();
    assert_eq!(s.ram.used, 650 * 1024);
    assert_eq!(s.ram.free, 2000 * 1024);
    let later = "MemTotal: 1 kB\nMemTotal: bad kB\nMemTotal: 7 kB\n";
    assert_eq!(parse_meminfo(later).mem_total, 7);
    assert!(memory_stats("MemTotal: 18014398509481984 kB\n", None, None).is_none());
    assert!(memory_stats("MemTotal: 18014398509481983 kB\n", None, None).is_some());
}

#[test]
fn zram_readings() {
    assert_eq!(parse_zram_mm_stat("4096 1024 2048 0 0\n"), ZramInfo { total: 4096, used: 1024 });
    assert_eq!(parse_zram_mm_stat("4096\n"), ZramInfo { total: 4096, used: 0 });
    assert_eq!(parse_zram_mm_stat(""), ZramInfo { total: 0, used: 0 });
    assert_eq!(parse_zram_disksize("8388608\n"), ZramInfo { total: 8388608, used: 0 });
    assert_eq!(parse_zram_disksize("x"), ZramInfo { total: 0, used: 0 });
}

#[test]
fn thermal_zone_names_and_order() {
    assert!(is_thermal_zone_name("thermal_zone3"));
    assert!(!is_thermal_zone_name("cooling_device0"));
    assert_eq!(thermal_zone_index("thermal_zone12"), 12);
    assert_eq!(thermal_zone_index("thermal_zone"), u32::MAX);
    assert_eq!(thermal_zone_index("cooling_device1"), u32::MAX);
    let names: Vec<String> = ["thermal_zone10", "thermal_zoneX", "thermal_zone2", "thermal_zone1", "thermal_zoneY", "thermal_zone2"]
        .iter()
        .map(|s| s.to_string())
        .collect();
    let sorted = sort_zone_names(names);
    assert_eq!(
        sorted,
        vec!["thermal_zone1", "thermal_zone2", "thermal_zone2", "thermal_zone10", "thermal_zoneX", "thermal_zoneY"]
    );
}

#[test]
fn thermal_zone_from_files() {
    let trips = vec![
        TripReading { temp: "95500\n".to_string(), trip_type: Some("passive\n".to_string()) },
        TripReading { temp: "bad".to_string(), trip_type: None },
    ];
    let z = thermal_zone("45250\n", Some("cpu-thermal\n"), &trips).unwrap();
    assert_eq!(z.name, "cpu-thermal");
    assert_eq!(z.zone_type, "cpu-thermal");
    assert_eq!(z.temp_milli, 45250);
    assert_eq!(z.trip_points.len(), 2);
    assert_eq!(z.trip_points[0].temp_milli, 95500);
    assert_eq!(z.trip_points[0].trip_type, "passive");
    assert_eq!(z.trip_points[1].temp_milli, 0);
    assert_eq!(z.trip_points[1].trip_type, "unknown");
    let neg = thermal_zone("-40000", None, &vec![]).unwrap();
    assert_eq!(neg.temp_milli, -40000);
    assert_eq!(neg.name, "");
    assert!(thermal_zone("hot", Some("x"), &vec![]).is_none());
}

#[test]
fn system_total_sums_aggregate_line() {
    assert_eq!(parse_system_total(PROC_STAT), Some(1000));
    assert_eq!(parse_system_total("cpu0 1 2\n"), Some(1));
    assert_eq!(parse_system_total("cpu 18446744073709551615 1\n"), None);
}

#[test]
fn pid_stat_fields() {
    let text = "1234 (my (odd) proc) S 1 1234 1234 0 -1 4194560 100 0 0 0 250 125 0 0 20 0 1 0\n";
    let p = parse_pid_stat(text).unwrap();
    assert_eq!(p.comm, "my (odd) proc");
    assert_eq!(p.state, "S");
    assert_eq!(p.utime, 250);
    assert_eq!(p.stime, 125);
    assert_eq!(parse_pid_stat("no parens here"), None);
    assert_eq!(parse_pid_stat("1 (a"), None);
    assert_eq!(parse_pid_stat("1 ) ("), None);
    assert_eq!(parse_pid_stat("1 (a)"), None);
    assert_eq!(parse_pid_stat("1 (a)\u{e9}x"), None);
    let short = parse_pid_stat("1 (a) R").unwrap();
    assert_eq!(short.state, "R");
    assert_eq!((short.utime, short.stime), (0, 0));
}

#[test]
fn proc_status_memory_and_uid() {
    let text = "Name:\tbash\nUid:\t1000\t1000\t1000\t1000\nVmRSS:\t  5120 kB\n";
    assert_eq!(parse_proc_status(text), Some((5120 * 1024, 1000)));
    assert_eq!(parse_proc_status("Name: x\n"), Some((0, 0)));
    assert_eq!(parse_proc_status("VmRSS: 18014398509481984 kB\n"), None);
}

#[test]
fn passwd_and_user_names() {
    let text = "root:x:0:0:root:/root:/bin/bash\nbroken line\nnvidia:x:1000:1000::/home/nvidia:/bin/bash\nalias:x:1000:1000::/:/bin/sh\n";
    let users = parse_passwd(text);
    assert_eq!(users.len(), 3);
    assert_eq!(user_name(&users, 0), "root");
    assert_eq!(user_name(&users, 1000), "alias");
    assert_eq!(user_name(&users, 4242), "4242");
}

#[test]
fn process_ticks_since_previous_sample() {
    let prev = vec![ProcTicks { pid: 7, ticks: 100, system_total: 1000 }];
    let d = process_delta(&prev, 7, 80, 40, 1400).unwrap();
    assert_eq!(d.sample, ProcTicks { pid: 7, ticks: 120, system_total: 1400 });
    assert_eq!((d.proc_ticks, d.system_ticks), (20, 400));
    let first = process_delta(&prev, 8, 1, 1, 1400).unwrap();
    assert_eq!((first.proc_ticks, first.system_ticks), (0, 0));
    assert!(process_delta(&prev, 7, u64::MAX, 1, 0).is_none());
}

fn proc_with_share(pid: u32, share: f32) -> ProcessInfo {
    ProcessInfo {
        pid,
        name: format!("p{pid}"),
        cpu_usage_bits: share.to_bits(),
        mem_usage: 0,
        gpu_usage_bits: None,
        state: "S".to_string(),
        user: "root".to_string(),
    }
}

fn pids(v: &[ProcessInfo]) -> Vec<u32> {
    v.iter().map(|p| p.pid).collect()
}

#[test]
fn processes_ordered_by_share_largest_first_stably() {
    let procs = vec![
        proc_with_share(1, 0.0),
        proc_with_share(2, 12.5),
        proc_with_share(3, 3.0),
        proc_with_share(4, 12.5),
        proc_with_share(5, 100.0),
        proc_with_share(6, 0.0),
    ];
    assert_eq!(pids(&sort_by_share(procs)), vec![5, 2, 4, 3, 1, 6]);
    assert_eq!(pids(&sort_by_share(vec![])), Vec::<u32>::new());
}

#[test]
fn at_most_twenty_processes_are_listed() {
    let procs: Vec<ProcessInfo> = (0..30u32).map(|i| proc_with_share(i, i as f32 * 0.5)).collect();
    let top = top_processes(procs);
    assert_eq!(top.len(), 20);
    assert_eq!(pids(&top), (10..30u32).rev().collect::<Vec<u32>>());
    let few = top_processes(vec![proc_with_share(7, 1.0), proc_with_share(8, 2.0)]);
    assert_eq!(pids(&few), vec![8, 7]);
}
