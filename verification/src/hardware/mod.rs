//! What the monitor reads from a Jetson board, and the parsers of the text
//! that the kernel exposes it in.

pub mod fan;
pub mod cpu;
pub mod gpu;
pub mod memory;
pub mod temperature;
pub mod process;
pub mod power;
pub mod jetson;

use vstd::prelude::*;

use crate::hardware::cpu::CpuStats;
use crate::hardware::fan::FanStats;
use crate::hardware::gpu::GpuStats;
use crate::hardware::jetson::{BoardInfo, JetsonModel};
use crate::hardware::memory::{MemoryInfo, MemoryStats};
use crate::hardware::power::PowerStats;
use crate::hardware::process::ProcessInfo;
use crate::hardware::temperature::TempStats;

verus! {

/// A complete snapshot of the board.
#[derive(Debug, Clone, PartialEq, Eq)]
pub struct JetsonStats {
    pub cpu: CpuStats,
    pub gpu: GpuStats,
    pub memory: MemoryStats,
    pub temperature: TempStats,
    pub fan: FanStats,
    pub power: PowerStats,
    pub processes: Vec<ProcessInfo>,
    pub board: BoardInfo,
}

/// A snapshot with nothing read: no cores, zones, fans, rails or processes,
/// zero loads, frequencies and sizes, and empty texts.
pub open spec fn is_blank(s: JetsonStats) -> bool {
    &&& s.cpu.cores@.len() == 0 && s.cpu.total_usage_bits == 0
    &&& s.gpu.load == 0 && s.gpu.freq_cur == 0 && s.gpu.freq_min == 0 && s.gpu.freq_max == 0
    &&& s.gpu.governor@.len() == 0
    &&& s.memory.ram == MemoryInfo::spec_zero() && s.memory.swap == MemoryInfo::spec_zero()
    &&& s.memory.zram is None && s.memory.emc is None
    &&& s.temperature.zones@.len() == 0
    &&& s.fan.fans@.len() == 0
    &&& s.power.rails@.len() == 0 && s.power.total_power_bits == 0
    &&& s.processes@.len() == 0
    &&& s.board.model@.len() == 0 && s.board.board_type == JetsonModel::Unknown
    &&& s.board.serial@.len() == 0 && s.board.l4t_version@.len() == 0
    &&& s.board.jetpack_version@.len() == 0 && s.board.cuda_version@.len() == 0
    &&& s.board.kernel_version@.len() == 0 && s.board.hostname@.len() == 0
    &&& s.board.uptime == 0
}

impl Default for JetsonStats {
    fn default() -> (r: JetsonStats)
        ensures
            is_blank(r),
    {
        JetsonStats {
            cpu: CpuStats::default(),
            gpu: GpuStats::default(),
            memory: MemoryStats::default(),
            temperature: TempStats::default(),
            fan: FanStats::default(),
            power: PowerStats::default(),
            processes: Vec::new(),
            board: BoardInfo::default(),
        }
    }
}

/// Reads the board it runs on (the reading itself is done by the front end).
pub struct LocalReader;

impl LocalReader {
    pub fn new() -> (r: LocalReader) {
        LocalReader
    }
}

} // verus!
