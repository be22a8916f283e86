use vstd::prelude::*;

use crate::text::{chars_of, decimal, eq_str, opt_str_view, push_decimal, push_str, string_of, trim, trim_chars};

verus! {

/// The power rails of the board.
#[derive(Debug, Clone, PartialEq, Eq)]
pub struct PowerStats {
    pub rails: Vec<PowerRail>,
    /// Sum of the rails' power in milliwatts, as the bits of the `f32` that
    /// the front end adds up.
    pub total_power_bits: u32,
}

/// One rail of a power monitor. The readings are `f32` values that the
/// front end parses from the kernel's files; the library carries their bits.
#[derive(Debug, Clone, PartialEq, Eq)]
pub struct PowerRail {
    pub name: String,
    /// Millivolts.
    pub voltage_bits: u32,
    /// Milliamps.
    pub current_bits: u32,
    /// Milliwatts.
    pub power_bits: u32,
    /// Warning and critical current, in milliamps, when the monitor has them.
    pub warn_bits: Option<u32>,
    pub crit_bits: Option<u32>,
}

impl Default for PowerStats {
    fn default() -> (r: PowerStats)
        ensures
            r.rails@.len() == 0,
            r.total_power_bits == 0,
    {
        PowerStats { rails: Vec::new(), total_power_bits: 0 }
    }
}

/// A hardware monitor is a power monitor of the board when its `name` file
/// holds "ina3221".
pub open spec fn is_power_monitor(name: Option<Seq<char>>) -> bool {
    match name {
        Some(n) => trim(n) == "ina3221"@,
        None => false,
    }
}

/// Whether a hardware monitor, by the contents of its `name` file (`None`
/// when it could not be read), is a power monitor.
pub fn is_power_monitor_name(name: Option<&str>) -> (b: bool)
    ensures
        b == is_power_monitor(opt_str_view(name)),
{
    match name {
        Some(n) => eq_str(&trim_chars(&chars_of(n)), "ina3221"),
        None => false,
    }
}

/// The name of channel `n` of a power monitor: the contents of its label
/// file, or "Rail n" when it could not be read.
pub open spec fn rail_name_of(label: Option<Seq<char>>, n: nat) -> Seq<char> {
    match label {
        Some(l) => trim(l),
        None => "Rail "@ + decimal(n),
    }
}

/// The name of channel `n` of a power monitor (see `rail_name_of`).
pub fn rail_name(label: Option<&str>, n: u32) -> (r: String)
    ensures
        r@ == rail_name_of(opt_str_view(label), n as nat),
{
    match label {
        Some(l) => crate::text::trimmed(l),
        None => {
            let mut v: Vec<char> = Vec::new();
            push_str(&mut v, "Rail ");
            push_decimal(&mut v, n as u64);
            string_of(v.as_slice())
        },
    }
}

} // verus!
