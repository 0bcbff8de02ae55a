//! User preferences: the persisted settings record and the validation rules
//! applied to user-entered values before any command is issued.
use vstd::prelude::*;

use crate::text::{parse_uint, str_equal, str_to_chars, trim_start_at, trim_ws};

verus! {

/// User preferences replayed as configuration-tool invocations. An absent
/// field means "leave the device default unchanged".
#[derive(Debug, Clone)]
pub struct Settings {
    pub sensitivity: Option<String>,
    pub polling_rate: Option<String>,
    pub sleep_timer: Option<String>,
    pub dim_timer: Option<String>,
    pub colour_mode: Option<String>,
    pub custom_color: Option<String>,
}

/// Mathematical model of a `Settings` record.
pub struct SettingsModel {
    pub sensitivity: Option<Seq<char>>,
    pub polling_rate: Option<Seq<char>>,
    pub sleep_timer: Option<Seq<char>>,
    pub dim_timer: Option<Seq<char>>,
    pub colour_mode: Option<Seq<char>>,
    pub custom_color: Option<Seq<char>>,
}

impl View for Settings {
    type V = SettingsModel;

    open spec fn view(&self) -> SettingsModel {
        SettingsModel {
            sensitivity: self.sensitivity.deep_view(),
            polling_rate: self.polling_rate.deep_view(),
            sleep_timer: self.sleep_timer.deep_view(),
            dim_timer: self.dim_timer.deep_view(),
            colour_mode: self.colour_mode.deep_view(),
            custom_color: self.custom_color.deep_view(),
        }
    }
}

impl Default for Settings {
    /// The record before any preference was set: every field absent.
    fn default() -> (r: Settings)
        ensures
            r@.sensitivity is None,
            r@.polling_rate is None,
            r@.sleep_timer is None,
            r@.dim_timer is None,
            r@.colour_mode is None,
            r@.custom_color is None,
    {
        Settings {
            sensitivity: None,
            polling_rate: None,
            sleep_timer: None,
            dim_timer: None,
            colour_mode: None,
            custom_color: None,
        }
    }
}

/// An acceptable sensitivity entry: blank, or a whole number in 100..=16000.
pub open spec fn sensitivity_ok(t: Seq<char>) -> bool {
    trim_ws(t).len() == 0 || (parse_uint(t) matches Some(n) && 100 <= n <= 16000)
}

/// An acceptable polling-rate entry: blank, or one of the four supported rates.
pub open spec fn polling_rate_ok(t: Seq<char>) -> bool {
    trim_ws(t).len() == 0 || t == "125"@ || t == "250"@ || t == "500"@ || t == "1000"@
}

/// An acceptable timer entry: blank, or a whole number that fits in 32 bits.
pub open spec fn timer_ok(t: Seq<char>) -> bool {
    trim_ws(t).len() == 0 || (parse_uint(t) matches Some(n) && n <= u32::MAX)
}

/// Whether the trimmed entry is blank, the case every validator accepts.
fn is_blank(s: &str) -> (r: bool)
    ensures
        r == (trim_ws(s@).len() == 0),
{
    let cs = str_to_chars(s);
    let a = trim_start_at(&cs, 0);
    proof {
        crate::text::lemma_trim_start_idx(cs@, 0);
        crate::text::lemma_skip_ws_end(cs@, cs@.len() as int);
    }
    a == cs.len()
}

/// Accept a sensitivity entry, or reject it with the message shown to the user.
pub fn validate_sensitivity(s: &str) -> (r: Result<(), String>)
    ensures
        match r {
            Ok(_) => sensitivity_ok(s@),
            Err(m) => !sensitivity_ok(s@) && m@ == "Sensitivity must be a number between 100 and 16000"@,
        },
{
    if is_blank(s) {
        return Ok(());
    }
    let cs = str_to_chars(s);
    proof {
        assert(cs@.subrange(0, cs@.len() as int) =~= cs@);
    }
    match crate::text::parse_u32_range(&cs, 0, cs.len()) {
        Some(v) if 100 <= v && v <= 16000 => Ok(()),
        _ => Err("Sensitivity must be a number between 100 and 16000".to_owned()),
    }
}

/// Accept a polling-rate entry, or reject it with the message shown to the user.
pub fn validate_polling_rate(s: &str) -> (r: Result<(), String>)
    ensures
        match r {
            Ok(_) => polling_rate_ok(s@),
            Err(m) => !polling_rate_ok(s@) && m@ == "Polling rate must be one of: 125, 250, 500, 1000"@,
        },
{
    if is_blank(s) {
        return Ok(());
    }
    if str_equal(s, "125") || str_equal(s, "250") || str_equal(s, "500") || str_equal(s, "1000") {
        Ok(())
    } else {
        Err("Polling rate must be one of: 125, 250, 500, 1000".to_owned())
    }
}

/// Accept a timer entry, or reject it with the message naming the field.
pub fn validate_timer(s: &str, name: &str) -> (r: Result<(), String>)
    ensures
        match r {
            Ok(_) => timer_ok(s@),
            Err(m) => !timer_ok(s@) && m@ == name@ + " must be a whole number"@,
        },
{
    if is_blank(s) {
        return Ok(());
    }
    let cs = str_to_chars(s);
    proof {
        assert(cs@.subrange(0, cs@.len() as int) =~= cs@);
    }
    match crate::text::parse_u32_range(&cs, 0, cs.len()) {
        Some(_) => Ok(()),
        None => {
            let mut m = name.to_owned();
            m.append(" must be a whole number");
            Err(m)
        },
    }
}
} // verus!
