use vstd::prelude::*;

use crate::text::{
    chars_of, contains, contains_chars, decimal, eq_str, parse_trimmed_u32, parse_u32, push_decimal,
    push_str, slice_of, string_of, trim, trim_chars,
};

verus! {

/// The fans of the board.
#[derive(Debug, Clone, PartialEq, Eq)]
pub struct FanStats {
    pub fans: Vec<FanInfo>,
}

/// One fan.
#[derive(Debug, Clone, PartialEq, Eq)]
pub struct FanInfo {
    pub name: String,
    /// Revolutions per minute.
    pub speed: u32,
    /// Duty cycle, out of `pwm_max`.
    pub pwm: u32,
    pub pwm_max: u32,
    /// Cooling profile: "quiet", "cool", "manual" or "unknown".
    pub profile: String,
}

impl Default for FanStats {
    fn default() -> (r: FanStats)
        ensures
            r.fans@.len() == 0,
    {
        FanStats { fans: Vec::new() }
    }
}

/// The contents of the two files of one fan channel of a hardware monitor
/// (`pwm{N}` and `fan{N}_input`), each `None` when it could not be read.
pub struct FanChannel {
    pub pwm: Option<String>,
    pub rpm: Option<String>,
}

/// The duty-cycle value that the reader takes from `pwm_max`.
pub const FAN_PWM_MAX: u32 = 255;

/// The cooling profile, from the contents of the fan controller's
/// `target_pwm` file and the monitor's `tach_enable` file (`None` for a file
/// that could not be read).
pub open spec fn fan_profile(target: Option<Seq<char>>, tach_enable: Option<Seq<char>>) -> Seq<
    char,
> {
    match target {
        Some(t) => {
            let v: u32 = match parse_u32(trim(t)) {
                Some(v) => v,
                None => 0,
            };
            if v == 0 {
                "quiet"@
            } else if v >= 200 {
                "cool"@
            } else {
                "manual"@
            }
        },
        None => match tach_enable {
            Some(x) => if trim(x) == "0"@ {
                "quiet"@
            } else {
                "unknown"@
            },
            None => "unknown"@,
        },
    }
}

/// Names the cooling profile from the fan controller's readings (see
/// `fan_profile`).
pub fn detect_profile(target: Option<&str>, tach_enable: Option<&str>) -> (r: String)
    ensures
        r@ == fan_profile(
            match target {
                Some(t) => Some(t@),
                None => None,
            },
            match tach_enable {
                Some(t) => Some(t@),
                None => None,
            },
        ),
{
    match target {
        Some(t) => {
            let v: u32 = match parse_trimmed_u32(t) {
                Some(v) => v,
                None => 0,
            };
            if v == 0 {
                String::from_str("quiet")
            } else if v >= 200 {
                String::from_str("cool")
            } else {
                String::from_str("manual")
            }
        },
        None => match tach_enable {
            Some(x) => {
                let t = trim_chars(&chars_of(x));
                if eq_str(&t, "0") {
                    String::from_str("quiet")
                } else {
                    String::from_str("unknown")
                }
            },
            None => String::from_str("unknown"),
        },
    }
}

/// The duty cycle that a channel reports, when its file reads as a number.
pub open spec fn channel_pwm(ch: FanChannel) -> Option<u32> {
    match ch.pwm {
        Some(t) => parse_u32(trim(t@)),
        None => None,
    }
}

/// The speed that a channel reports, zero when it does not read as a number.
pub open spec fn channel_rpm(ch: FanChannel) -> u32 {
    match ch.rpm {
        Some(t) => match parse_u32(trim(t@)) {
            Some(v) => v,
            None => 0,
        },
        None => 0,
    }
}

/// The first channel at or after `i` whose duty cycle reads as a number.
pub open spec fn first_fan_channel(chs: Seq<FanChannel>, i: int) -> Option<int>
    decreases chs.len() - i,
{
    if !(0 <= i < chs.len()) {
        None
    } else if channel_pwm(chs[i]) is Some {
        Some(i)
    } else {
        first_fan_channel(chs, i + 1)
    }
}

/// The name of a fan: the monitor's name, or "Fan N" for channel N when the
/// monitor has none.
pub open spec fn fan_name(hwmon_name: Seq<char>, n: nat) -> Seq<char> {
    if hwmon_name.len() == 0 {
        "Fan "@ + decimal(n)
    } else {
        hwmon_name
    }
}

proof fn lemma_first_fan_channel_skip(chs: Seq<FanChannel>, i: int, k: int)
    requires
        0 <= i <= k <= chs.len(),
        forall|j: int| i <= j < k ==> channel_pwm(#[trigger] chs[j]) is None,
    ensures
        first_fan_channel(chs, i) == first_fan_channel(chs, k),
    decreases k - i,
{
    if i < k {
        lemma_first_fan_channel_skip(chs, i + 1, k);
    }
}

/// The fan comes from the first channel whose duty-cycle file reads as a
/// number, whatever that number is (an idle fan at 0 included), and
/// reports that number as its duty cycle.
pub proof fn lemma_fan_channel(chs: Seq<FanChannel>, k: int, text: String, v: u32)
    requires
        0 <= k < chs.len(),
        chs[k].pwm == Some(text),
        parse_u32(trim(text@)) == Some(v),
        forall|j: int|
            0 <= j < k ==> match (#[trigger] chs[j]).pwm {
                Some(t) => parse_u32(trim(t@)) is None,
                None => true,
            },
    ensures
        first_fan_channel(chs, 0) == Some(k),
        channel_pwm(chs[k]) == Some(v),
{
    assert forall|j: int| 0 <= j < k implies channel_pwm(#[trigger] chs[j]) is None by {
        assert(match chs[j].pwm {
            Some(t) => parse_u32(trim(t@)) is None,
            None => true,
        });
    }
    lemma_first_fan_channel_skip(chs, 0, k);
}

/// The fan that a hardware monitor describes, from the contents of its
/// `name` file and of its channels 1, 2, ... in order: the first channel
/// whose duty cycle reads as a number gives the fan, or there is none.
pub fn fan_from_readings(hwmon_name: Option<&str>, profile: String, channels: &Vec<FanChannel>) -> (r:
    Option<FanInfo>)
    requires
        channels.len() < u32::MAX,
    ensures
        match first_fan_channel(channels@, 0) {
            None => r is None,
            Some(k) => r matches Some(f) && {
                &&& f.name@ == fan_name(
                    match hwmon_name {
                        Some(t) => trim(t@),
                        None => seq![],
                    },
                    (k + 1) as nat,
                )
                &&& Some(f.pwm) == channel_pwm(channels@[k])
                &&& f.speed == channel_rpm(channels@[k])
                &&& f.pwm_max == FAN_PWM_MAX
                &&& f.profile == profile
            },
        },
{
    let name: Vec<char> = match hwmon_name {
        Some(t) => trim_chars(&chars_of(t)),
        None => Vec::new(),
    };
    let mut i: usize = 0;
    while i < channels.len()
        invariant
            i <= channels.len() < u32::MAX,
            forall|j: int| 0 <= j < i ==> channel_pwm(#[trigger] channels@[j]) is None,
            name@ == match hwmon_name {
                Some(t) => trim(t@),
                None => seq![],
            },
        decreases channels.len() - i,
    {
        let ch = &channels[i];
        let pwm: Option<u32> = match &ch.pwm {
            Some(t) => parse_trimmed_u32(t.as_str()),
            None => None,
        };
        if let Some(pwm_val) = pwm {
            let rpm: u32 = match &ch.rpm {
                Some(t) => match parse_trimmed_u32(t.as_str()) {
                    Some(v) => v,
                    None => 0,
                },
                None => 0,
            };
            let n: u32 = (i + 1) as u32;
            let shown = if name.len() == 0 {
                let mut v: Vec<char> = Vec::new();
                push_str(&mut v, "Fan ");
                push_decimal(&mut v, n as u64);
                v
            } else {
                slice_of(&name, 0, name.len())
            };
            proof {
                lemma_first_fan_channel_skip(channels@, 0, i as int);
                if name.len() != 0 {
                    assert(shown@ =~= name@);
                } else {
                    assert(shown@ =~= "Fan "@ + decimal((i + 1) as nat));
                }
            }
            let shown_name = string_of(shown.as_slice());
            return Some(
                FanInfo {
                    name: shown_name,
                    speed: rpm,
                    pwm: pwm_val,
                    pwm_max: FAN_PWM_MAX,
                    profile,
                },
            );
        }
        i = i + 1;
    }
    proof {
        lemma_first_fan_channel_skip(channels@, 0, i as int);
    }
    None
}

/// Whether a hardware monitor, by its name, is a fan controller.
pub open spec fn is_fan_monitor(name: Seq<char>) -> bool {
    contains(name, "pwm-fan"@) || contains(name, "fan"@)
}

/// Whether a hardware monitor, by its name, is a fan controller.
pub fn is_fan_monitor_name(name: &str) -> (b: bool)
    ensures
        b == is_fan_monitor(name@),
{
    let v = chars_of(name);
    contains_chars(&v, "pwm-fan") || contains_chars(&v, "fan")
}

} // verus!
