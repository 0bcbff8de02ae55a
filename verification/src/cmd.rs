//! The external-process abstraction and the parsing of the configuration
//! tool's captured output: charging state, battery percentage, device name,
//! and the argument list built from saved settings.
use vstd::prelude::*;

use crate::settings::{Settings, SettingsModel};
use crate::text::{
    contains_seq, contains_sub, find_line_ending_with, first_line_ending_with, lines_from,
    parse_u32_range, parse_uint, second_last_token, second_last_token_range, skip_ws_end_at,
    str_to_chars, strip_percent, trim_start_at, trim_ws,
};
use vstd::string::StrSliceExecFns;

verus! {

/// What one invocation of an external program produced.
#[derive(Debug, Clone)]
pub struct CommandOutput {
    pub stdout: String,
    pub stderr: String,
    pub success: bool,
    pub _code: Option<i32>,
}

/// Capability for running an external program: the one place the library
/// touches the outside world. Implementations spawn a real process, or
/// replay pre-programmed responses in tests; nothing is assumed of what
/// they return.
pub trait CommandRunner: Send + Sync {
    fn run(&self, program: &str, args: &[&str]) -> CommandOutput;
}

/// The charging state read from captured text: "Discharging" wins over
/// "Charging", and neither present means unknown.
pub open spec fn charging_status(t: Seq<char>) -> Option<bool> {
    if contains_seq(t, "Discharging"@) {
        Some(false)
    } else if contains_seq(t, "Charging"@) {
        Some(true)
    } else {
        None
    }
}

/// Scan captured text for the charging state.
pub fn get_battery_status(stdout: &str) -> (r: Option<bool>)
    ensures
        r == charging_status(stdout@),
{
    let cs = str_to_chars(stdout);
    let dis = str_to_chars("Discharging");
    if contains_sub(&cs, &dis) {
        return Some(false);
    }
    let ch = str_to_chars("Charging");
    if contains_sub(&cs, &ch) {
        Some(true)
    } else {
        None
    }
}

/// Charging detection over every captured text: "Discharging" anywhere
/// yields a discharging reading whatever else the text holds, "Charging"
/// without it yields a charging reading, and a text with neither yields no
/// reading at all.
pub proof fn lemma_charging_detection(t: Seq<char>)
    ensures
        contains_seq(t, "Discharging"@) ==> charging_status(t) == Some(false),
        !contains_seq(t, "Discharging"@) && contains_seq(t, "Charging"@) ==> charging_status(t)
            == Some(true),
        !contains_seq(t, "Discharging"@) && !contains_seq(t, "Charging"@) ==> charging_status(t)
            is None,
{
}

/// The battery reading in captured text: the charging state must be known,
/// the second-to-last whitespace token (one trailing `%` stripped) must
/// parse as a whole number, and the percentage must lie in 0..=100; anything
/// else is unknown.
pub open spec fn battery_level_of(t: Seq<char>) -> Option<(u8, bool)> {
    match charging_status(t) {
        None => None,
        Some(c) => match second_last_token(t) {
            None => None,
            Some(tok) => match parse_uint(strip_percent(tok)) {
                Some(n) => if 0 <= n <= 100 {
                    Some((n as u8, c))
                } else {
                    None
                },
                None => None,
            },
        },
    }
}

/// The battery reading of a whole command result: a failed command yields
/// nothing.
pub open spec fn battery_level_of_output(out: CommandOutput) -> Option<(u8, bool)> {
    if out.success {
        battery_level_of(out.stdout@)
    } else {
        None
    }
}

/// Parse a captured command result into a battery reading.
pub fn parse_battery_level(out: &CommandOutput) -> (r: Option<(u8, bool)>)
    ensures
        r == battery_level_of_output(*out),
{
    if !out.success {
        return None;
    }
    let charging = match get_battery_status(out.stdout.as_str()) {
        Some(c) => c,
        None => {
            return None;
        },
    };
    let cs = str_to_chars(out.stdout.as_str());
    let (a, b) = match second_last_token_range(&cs) {
        Some(r) => r,
        None => {
            return None;
        },
    };
    let ghost tok = cs@.subrange(a as int, b as int);
    let b2 = if b > a && cs[b - 1] == '%' {
        b - 1
    } else {
        b
    };
    proof {
        if b > a && cs@[b - 1] == '%' {
            assert(tok.last() == cs@[b - 1]);
            assert(tok.drop_last() =~= cs@.subrange(a as int, b - 1));
        }
        assert(strip_percent(tok) =~= cs@.subrange(a as int, b2 as int));
    }
    match parse_u32_range(&cs, a, b2) {
        Some(v) if v <= 100 => Some((v as u8, charging)),
        _ => None,
    }
}

/// Fetch the battery reading by running the configuration tool with
/// `--battery-level` and parsing what it printed; `parse_battery_level`
/// carries the exact contract for every possible output. Whatever the tool
/// printed, a reading that comes back lies in 0..=100.
pub fn get_battery_level_with_runner<R: CommandRunner>(runner: &R) -> (r: Option<(u8, bool)>)
    ensures
        r matches Some((percent, _)) ==> percent <= 100,
{
    let args = ["--battery-level"];
    let out = runner.run("rivalcfg", &args);
    parse_battery_level(&out)
}

/// The device name in captured text: the first line ending in "Options:",
/// with that suffix removed and surrounding whitespace trimmed.
pub open spec fn mouse_name_of(t: Seq<char>) -> Option<Seq<char>> {
    match first_line_ending_with(lines_from(t, 0), "Options:"@) {
        None => None,
        Some(line) => Some(trim_ws(line.subrange(0, line.len() - "Options:"@.len()))),
    }
}

/// The device name of a whole command result: a failed command yields nothing.
pub open spec fn mouse_name_of_output(out: CommandOutput) -> Option<Seq<char>> {
    if out.success {
        mouse_name_of(out.stdout@)
    } else {
        None
    }
}

/// Parse a captured command result into the device name. A returned name
/// never carries surrounding whitespace.
pub fn parse_mouse_name(out: &CommandOutput) -> (r: Option<String>)
    ensures
        match r {
            Some(name) => mouse_name_of_output(*out) == Some(name@) && name@ == trim_ws(name@),
            None => mouse_name_of_output(*out) is None,
        },
{
    if !out.success {
        return None;
    }
    let s = out.stdout.as_str();
    let cs = str_to_chars(s);
    let suf = str_to_chars("Options:");
    let (p, q) = match find_line_ending_with(&cs, &suf) {
        Some(r) => r,
        None => {
            return None;
        },
    };
    let ghost line = cs@.subrange(p as int, q as int);
    let pre_end = q - suf.len();
    let pre = s.substring_char(p, pre_end);
    let pv = str_to_chars(pre);
    proof {
        assert(pv@ =~= line.subrange(0, line.len() - suf@.len()));
    }
    let a = trim_start_at(&pv, 0);
    let b = skip_ws_end_at(&pv, pv.len());
    proof {
        crate::text::lemma_trim_start_idx(pv@, 0);
        crate::text::lemma_skip_ws_end(pv@, pv@.len() as int);
    }
    proof {
        crate::text::lemma_trim_ws_idempotent(pv@);
    }
    if a <= b {
        let name = pre.substring_char(a, b);
        Some(name.to_owned())
    } else {
        proof {
            assert(trim_ws(Seq::<char>::empty()) =~= Seq::<char>::empty());
        }
        Some(String::new())
    }
}

/// Fetch the device name by running the configuration tool with `--help`
/// and parsing what it printed; `parse_mouse_name` carries the exact
/// contract for every possible output. Whatever the tool printed, a name
/// that comes back carries no surrounding whitespace: it is fit for the
/// tray title as it stands.
pub fn get_mouse_name_with_runner<R: CommandRunner>(runner: &R) -> (r: Option<String>)
    ensures
        r matches Some(name) ==> name@ == trim_ws(name@),
{
    let args = ["--help"];
    let out = runner.run("rivalcfg", &args);
    parse_mouse_name(&out)
}

/// The flag pair a set, non-empty preference contributes to the argument list.
pub open spec fn opt_flag(flag: Seq<char>, val: Option<Seq<char>>) -> Seq<Seq<char>> {
    match val {
        Some(t) => if t.len() > 0 {
            seq![flag, t]
        } else {
            Seq::empty()
        },
        None => Seq::empty(),
    }
}

/// The configuration tool's argument list for a settings record: the four
/// replayable preferences, each present only if set and non-empty, in this
/// fixed order.
pub open spec fn rivalcfg_args(v: SettingsModel) -> Seq<Seq<char>> {
    opt_flag("--sensitivity"@, v.sensitivity) + opt_flag("--polling-rate"@, v.polling_rate)
        + opt_flag("--sleep-timer"@, v.sleep_timer) + opt_flag("--dim-timer"@, v.dim_timer)
}

/// Build the configuration tool's argument list (without the program name)
/// from a settings record.
pub fn build_rivalcfg_args(s: &Settings) -> (r: Vec<String>)
    ensures
        r.deep_view() == rivalcfg_args(s@),
{
    let mut args: Vec<String> = Vec::new();
    if let Some(sens) = &s.sensitivity {
        if !sens.as_str().is_empty() {
            args.push("--sensitivity".to_owned());
            args.push(sens.clone());
        }
    }
    proof {
        assert(args.deep_view() =~= opt_flag("--sensitivity"@, s@.sensitivity));
    }
    let ghost part1 = args.deep_view();
    if let Some(rate) = &s.polling_rate {
        if !rate.as_str().is_empty() {
            args.push("--polling-rate".to_owned());
            args.push(rate.clone());
        }
    }
    proof {
        assert(args.deep_view() =~= part1 + opt_flag("--polling-rate"@, s@.polling_rate));
    }
    let ghost part2 = args.deep_view();
    if let Some(sleep) = &s.sleep_timer {
        if !sleep.as_str().is_empty() {
            args.push("--sleep-timer".to_owned());
            args.push(sleep.clone());
        }
    }
    proof {
        assert(args.deep_view() =~= part2 + opt_flag("--sleep-timer"@, s@.sleep_timer));
    }
    let ghost part3 = args.deep_view();
    if let Some(dim) = &s.dim_timer {
        if !dim.as_str().is_empty() {
            args.push("--dim-timer".to_owned());
            args.push(dim.clone());
        }
    }
    proof {
        assert(args.deep_view() =~= part3 + opt_flag("--dim-timer"@, s@.dim_timer));
        assert(args.deep_view() =~= rivalcfg_args(s@));
    }
    args
}

} // verus!
