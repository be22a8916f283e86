use jtop::hardware::jetson::JetsonModel;
use jtop::remote::{
    parse_board_section, parse_cpu_section, parse_fan_section, parse_gpu_section,
    parse_memory_section, parse_temp_section, split_sections, remote_stats,
};

#[test]
fn sections_are_split_at_separator() {
    let s = split_sections("a\n---SEP---\nb\n---SEP---\n");
    assert_eq!(s, vec!["a\n", "\nb\n", "\n"]);
    assert_eq!(split_sections("plain"), vec!["plain"]);
    assert_eq!(split_sections(""), vec![""]);
}

#[test]
fn remote_cpu_cores_take_listed_frequencies() {
    let stat = "cpu  1 2 3 4 5\ncpu0 1 2 3 4 5\ncpu1 1 2 3 4\ncpu2 1 2 3\ncpu3 1 2 3 4 5\nintr 1\n";
    let freqs = "1200000\n\nbad\n1400000\n";
    let c = parse_cpu_section(stat, freqs);
    let got: Vec<(u32, u64)> = c.cores.iter().map(|k| (k.id, k.freq_cur)).collect();
    assert_eq!(got, vec![(0, 1200000), (1, 1400000), (3, 0)]);
    assert!(c.cores.iter().all(|k| k.online && k.total_delta == 0 && k.governor.is_empty()));
    assert_eq!(c.total_usage_bits, 0);
}

#[test]
fn remote_gpu_section() {
    let g = parse_gpu_section("512\n", "918000000\n");
    assert_eq!(g.load, 512);
    assert_eq!(g.freq_cur, 918000000);
    let z = parse_gpu_section("", "x");
    assert_eq!((z.load, z.freq_cur), (0, 0));
}

#[test]
fn remote_memory_uses_available() {
    let m = parse_memory_section("MemTotal: 1000 kB\nMemFree: 100 kB\nMemAvailable: 2000 kB\nSwapTotal: 10 kB\nSwapFree: 20 kB\n").unwrap();
    assert_eq!(m.ram.used, 0);
    assert_eq!(m.ram.free, 2000 * 1024);
    assert_eq!(m.swap.used, 0);
    assert_eq!(m.swap.free, 20 * 1024);
    assert!(m.zram.is_none() && m.emc.is_none());
    assert!(parse_memory_section("SwapFree: 18014398509481984 kB\n").is_none());
}

#[test]
fn remote_temperatures() {
    let t = parse_temp_section("cpu-thermal:45250\n\ngpu-thermal:\ntj-thermal:bad\nodd\nsoc:1:2\n");
    let got: Vec<(String, i64)> = t.zones.iter().map(|z| (z.name.clone(), z.temp_milli)).collect();
    assert_eq!(
        got,
        vec![
            ("cpu-thermal".to_string(), 45250),
            ("gpu-thermal".to_string(), 0),
            ("tj-thermal".to_string(), 0),
            ("odd".to_string(), 0),
            ("soc".to_string(), 0),
        ]
    );
    assert!(t.zones.iter().all(|z| z.zone_type == z.name && z.trip_points.is_empty()));
}

#[test]
fn remote_fans() {
    let f = parse_fan_section("pwmfan:128:2400\n:77\nnocolon\nx:bad:1:2\n");
    let got: Vec<(String, u32, u32)> = f.fans.iter().map(|x| (x.name.clone(), x.pwm, x.speed)).collect();
    assert_eq!(
        got,
        vec![("pwmfan".to_string(), 128, 2400), ("Fan".to_string(), 77, 0), ("x".to_string(), 0, 0)]
    );
    assert!(f.fans.iter().all(|x| x.pwm_max == 255 && x.profile == "unknown"));
}

#[test]
fn remote_board() {
    let b = parse_board_section("NVIDIA Jetson Orin Nano Developer Kit\n", "jetson\n", 77, "5.15.148-tegra\n");
    assert_eq!(b.board_type, JetsonModel::OrinNano);
    assert_eq!(b.model, "NVIDIA Jetson Orin Nano Developer Kit");
    assert_eq!(b.hostname, "jetson");
    assert_eq!(b.kernel_version, "5.15.148-tegra");
    assert_eq!(b.uptime, 77);
    assert_eq!(parse_board_section("", "", 0, "").board_type, JetsonModel::Unknown);
    assert_eq!(parse_board_section("Xavier", "", 0, "").board_type, JetsonModel::Other("Xavier".to_string()));
}

#[test]
fn remote_stats_assembles_the_sections() {
    let output = [
        "cpu  10 0 10 80\ncpu0 5 0 5 40 0\ncpu1 5 0 5 40 0\n",
        "1200000\n1500000\n",
        "455\n",
        "918000000\n",
        "MemTotal: 1000 kB\nMemAvailable: 400 kB\nSwapTotal: 10 kB\nSwapFree: 4 kB\n",
        "cpu-thermal:45500\n",
        "pwm-fan:128:2000\n",
        "NVIDIA Jetson AGX Orin\n",
        "orin\n",
        "1234.56 100.0\n",
        "5.15.136-tegra\n",
    ]
    .join("---SEP---");
    let sections = split_sections(&output);
    let stats = remote_stats(&sections, 1234).unwrap();
    assert_eq!(stats.cpu.cores.len(), 2);
    assert_eq!(stats.cpu.cores[1].freq_cur, 1500000);
    assert_eq!(stats.gpu.load, 455);
    assert_eq!(stats.gpu.freq_cur, 918000000);
    assert_eq!(stats.memory.ram.total, 1000 * 1024);
    assert_eq!(stats.memory.ram.used, 600 * 1024);
    assert_eq!(stats.memory.swap.used, 6 * 1024);
    assert_eq!(stats.temperature.zones[0].temp_milli, 45500);
    assert_eq!(stats.fan.fans[0].pwm, 128);
    assert_eq!(stats.fan.fans[0].speed, 2000);
    assert_eq!(stats.board.board_type, JetsonModel::AGXOrin);
    assert_eq!(stats.board.hostname, "orin");
    assert_eq!(stats.board.kernel_version, "5.15.136-tegra");
    assert_eq!(stats.board.uptime, 1234);
    assert!(stats.power.rails.is_empty());
    assert!(stats.processes.is_empty());
}

#[test]
fn remote_stats_with_missing_sections_and_overflow() {
    let sections = split_sections("cpu0 1 2 3 4 5\n");
    let stats = remote_stats(&sections, 0).unwrap();
    assert_eq!(stats.cpu.cores.len(), 1);
    assert_eq!(stats.cpu.cores[0].freq_cur, 0);
    assert_eq!(stats.gpu.load, 0);
    assert_eq!(stats.memory.ram.total, 0);
    assert!(stats.temperature.zones.is_empty());
    assert_eq!(stats.board.board_type, JetsonModel::Unknown);
    let big = format!("a---SEP---b---SEP---c---SEP---d---SEP---MemTotal: {} kB\n", u64::MAX);
    assert!(remote_stats(&split_sections(&big), 0).is_none());
}
