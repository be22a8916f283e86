use vstd::prelude::*;

use crate::text::{attr_text, attr_u64, opt_as_str, opt_view, parse_trimmed_u64, parse_u64, read_attr_text, read_attr_u64, trim};

verus! {

/// The graphics processor.
#[derive(Debug, Clone, PartialEq, Eq)]
pub struct GpuStats {
    /// Load in tenths of a percent (the local reader limits it to 1000).
    pub load: u64,
    /// Frequencies in Hz.
    pub freq_cur: u64,
    pub freq_min: u64,
    pub freq_max: u64,
    pub governor: String,
}

impl Default for GpuStats {
    fn default() -> (r: GpuStats)
        ensures
            r.load == 0 && r.freq_cur == 0 && r.freq_min == 0 && r.freq_max == 0,
            r.governor@.len() == 0,
    {
        GpuStats { load: 0, freq_cur: 0, freq_min: 0, freq_max: 0, governor: String::new() }
    }
}

/// The contents of the files of the processor's devfreq directory, each
/// `None` when it could not be read.
pub struct GpuDevfreq {
    pub cur_freq: Option<String>,
    pub min_freq: Option<String>,
    pub max_freq: Option<String>,
    pub governor: Option<String>,
}

/// The board has the platform bus but not the processor's directory on it,
/// and nothing was read of the processor.
#[derive(Debug, Clone, Copy, PartialEq, Eq)]
pub enum GpuError {
    GpuPathMissing,
}

/// The first of the load files, in priority order, whose contents read as a
/// number.
pub open spec fn first_load(readings: Seq<Option<String>>, i: int) -> Option<u64>
    decreases readings.len() - i,
{
    if !(0 <= i < readings.len()) {
        None
    } else {
        match readings[i] {
            Some(t) => match parse_u64(trim(t@)) {
                Some(v) => Some(v),
                None => first_load(readings, i + 1),
            },
            None => first_load(readings, i + 1),
        }
    }
}

/// The load in tenths of a percent: the first reading that is a number,
/// limited to 1000 (a full load), or zero when none is.
pub open spec fn load_value(readings: Seq<Option<String>>) -> u64 {
    match first_load(readings, 0) {
        Some(v) => if v > 1000 {
            1000
        } else {
            v
        },
        None => 0,
    }
}

/// The first of the load files, in priority order, whose contents read as a
/// number (see `first_load`).
pub fn first_load_reading(load_readings: &Vec<Option<String>>) -> (r: Option<u64>)
    ensures
        r == first_load(load_readings@, 0),
{
    let mut i: usize = 0;
    while i < load_readings.len()
        invariant
            i <= load_readings.len(),
            first_load(load_readings@, 0) == first_load(load_readings@, i as int),
        decreases load_readings.len() - i,
    {
        let v = match &load_readings[i] {
            Some(t) => parse_trimmed_u64(t.as_str()),
            None => None,
        };
        if v.is_some() {
            return v;
        }
        i = i + 1;
    }
    None
}

/// The processor's state from its readings: the contents of its load files
/// in priority order, of its devfreq directory when one was found, and
/// whether the platform bus and the processor's directory on it exist.
pub fn gpu_stats(
    load_readings: &Vec<Option<String>>,
    devfreq: Option<GpuDevfreq>,
    bus_present: bool,
    gpu_present: bool,
) -> (r: Result<GpuStats, GpuError>)
    ensures
        ({
            let cur = match devfreq {
                Some(d) => attr_u64(opt_view(d.cur_freq)),
                None => 0,
            };
            &&& r is Err <==> (load_value(load_readings@) == 0 && cur == 0 && bus_present
                && !gpu_present)
            &&& r matches Ok(g) ==> {
                &&& g.load == load_value(load_readings@)
                &&& g.load <= 1000
                &&& g.freq_cur == cur
                &&& match devfreq {
                    Some(d) => {
                        &&& g.freq_min == attr_u64(opt_view(d.min_freq))
                        &&& g.freq_max == attr_u64(opt_view(d.max_freq))
                        &&& g.governor@ == attr_text(opt_view(d.governor))
                    },
                    None => g.freq_min == 0 && g.freq_max == 0 && g.governor@.len() == 0,
                }
            }
        }),
{
    let load: u64 = match first_load_reading(load_readings) {
        Some(v) => if v > 1000 {
            1000
        } else {
            v
        },
        None => 0,
    };
    let (freq_cur, freq_min, freq_max, governor) = match &devfreq {
        Some(d) => (
            read_attr_u64(opt_as_str(&d.cur_freq)),
            read_attr_u64(opt_as_str(&d.min_freq)),
            read_attr_u64(opt_as_str(&d.max_freq)),
            read_attr_text(opt_as_str(&d.governor)),
        ),
        None => (0, 0, 0, String::new()),
    };
    if load == 0 && freq_cur == 0 && bus_present && !gpu_present {
        return Err(GpuError::GpuPathMissing);
    }
    Ok(GpuStats { load, freq_cur, freq_min, freq_max, governor })
}

} // verus!
