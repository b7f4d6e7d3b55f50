//! What the environment configures, read from the variables' values, and
//! the lines the router says at startup so an operator knows what it found.
//!
//! Each setting is a whole number when it is set and not empty. A value that
//! is not a whole number is refused rather than read as unset, because the
//! difference between those two is whether the setting is the one the
//! operator meant.

use vstd::prelude::*;

use crate::text::{decimal, parse_unsigned, push_decimal, push_str, unsigned_value};

verus! {

/// The variable that sets the memory budget, in mebibytes.
pub open spec fn budget_variable() -> Seq<char> {
    "MAESTRO_MEMORY_BUDGET_MIB"@
}

/// What a refused setting is told.
pub open spec fn not_whole_text(name: Seq<char>, value: Seq<char>) -> Seq<char> {
    name + " must be a whole number, but is '"@ + value + "'"@
}

/// What a setting says: nothing when unset or empty, its number when it is
/// one no larger than `max`, and a refusal otherwise.
pub open spec fn setting_value(name: Seq<char>, value: Option<Seq<char>>, max: u64) -> Result<Option<u64>, Seq<char>> {
    match value {
        None => Ok(None),
        Some(v) => if v.len() == 0 {
            Ok(None)
        } else {
            match unsigned_value(v, max as nat) {
                Some(n) => Ok(Some(n as u64)),
                None => Err(not_whole_text(name, v)),
            }
        },
    }
}

/// Reads one whole-number setting from its variable's value.
pub fn whole_setting(name: &str, value: Option<&str>, max: u64) -> (read: Result<Option<u64>, String>)
    ensures
        match setting_value(
            name@,
            match value {
                Some(v) => Some(v@),
                None => None,
            },
            max,
        ) {
            Ok(n) => read == Ok::<Option<u64>, String>(n),
            Err(m) => read matches Err(e) && e@ == m,
        },
{
    match value {
        None => Ok(None),
        Some(v) => {
            if v.unicode_len() == 0 {
                return Ok(None);
            }
            match parse_unsigned(v, max) {
                Some(n) => Ok(Some(n)),
                None => {
                    let mut m = String::new();
                    push_str(&mut m, name);
                    push_str(&mut m, " must be a whole number, but is '");
                    push_str(&mut m, v);
                    push_str(&mut m, "'");
                    Err(m)
                },
            }
        },
    }
}

/// The ceiling models are unloaded to stay under, and what set it.
#[derive(Debug, Clone, PartialEq, Eq)]
pub struct Ceiling {
    /// The ceiling in mebibytes, or `None` when there is none.
    pub limit_mib: Option<u32>,
    /// What the machine was read for to set it, where the machine set it;
    /// empty otherwise.
    pub source: String,
}

/// The margin a device keeps for the display, the driver and whatever else
/// the machine runs: a tenth of it, and never less than 1024 MiB.
pub open spec fn device_margin(total: u64) -> int {
    if total / 10 >= 1024 { (total / 10) as int } else { 1024 }
}

/// A figure held to what 32 bits can say.
pub open spec fn held_to_u32(n: int) -> u32 {
    if n > u32::MAX { u32::MAX } else if n < 0 { 0 } else { n as u32 }
}

/// The ceiling a device of this size allows: its total less the margin,
/// never below nothing.
pub open spec fn device_ceiling(total: u64) -> u32 {
    held_to_u32(total - device_margin(total))
}

/// What the device's line says was read to set the ceiling.
pub open spec fn device_source(total: u64) -> Seq<char> {
    "derived from the device ("@ + decimal(total as nat) + " MiB total less a "@ + decimal(device_margin(total) as nat)
        + " MiB margin)"@
}

/// The ceiling system memory of this size allows: four fifths of it.
pub open spec fn system_ceiling(total: u64) -> u32 {
    held_to_u32(total * 4 / 5)
}

/// What the system memory's line says was read to set the ceiling.
pub open spec fn system_source(total: u64) -> Seq<char> {
    "derived from system memory ("@ + decimal(total as nat) + " MiB total, four fifths of it)"@
}

/// Where the ceiling comes from: the variable, when it is set and not
/// empty; otherwise a device the driver can see, less its margin;
/// otherwise four fifths of the system memory; otherwise none.
pub open spec fn ceiling_from(
    configured: Option<Seq<char>>,
    device_total_mib: Option<u64>,
    system_total_mib: Option<u64>,
) -> Result<(Option<u32>, Seq<char>), Seq<char>> {
    match setting_value(budget_variable(), configured, u32::MAX as u64) {
        Err(m) => Err(m),
        Ok(Some(n)) => Ok((Some(n as u32), Seq::empty())),
        Ok(None) => match device_total_mib {
            Some(total) => Ok((Some(device_ceiling(total)), device_source(total))),
            None => match system_total_mib {
                Some(total) => Ok((Some(system_ceiling(total)), system_source(total))),
                None => Ok((None, Seq::empty())),
            },
        },
    }
}

/// The ceiling models are unloaded to stay under, from the variable's value
/// and what the machine reports.
pub fn ceiling(configured: Option<&str>, device_total_mib: Option<u64>, system_total_mib: Option<u64>) -> (found: Result<
    Ceiling,
    String,
>)
    ensures
        match ceiling_from(
            match configured {
                Some(v) => Some(v@),
                None => None,
            },
            device_total_mib,
            system_total_mib,
        ) {
            Ok((limit, source)) => found matches Ok(c) && c.limit_mib == limit && c.source@ == source,
            Err(m) => found matches Err(e) && e@ == m,
        },
{
    let read = whole_setting("MAESTRO_MEMORY_BUDGET_MIB", configured, u32::MAX as u64);
    match read {
        Err(m) => Err(m),
        Ok(Some(n)) => Ok(Ceiling { limit_mib: Some(n as u32), source: String::new() }),
        Ok(None) => match device_total_mib {
            Some(total) => {
                let margin = if total / 10 >= 1024 { total / 10 } else { 1024 };
                let left = total.saturating_sub(margin);
                let limit = if left > u32::MAX as u64 { u32::MAX } else { left as u32 };
                let mut source = String::new();
                push_str(&mut source, "derived from the device (");
                push_decimal(&mut source, total as u128);
                push_str(&mut source, " MiB total less a ");
                push_decimal(&mut source, margin as u128);
                push_str(&mut source, " MiB margin)");
                Ok(Ceiling { limit_mib: Some(limit), source })
            },
            None => match system_total_mib {
                Some(total) => {
                    let share = total / 5 * 4 + total % 5 * 4 / 5;
                    assert(share == total * 4 / 5) by (nonlinear_arith)
                        requires share == total / 5 * 4 + total % 5 * 4 / 5;
                    let limit = if share > u32::MAX as u64 { u32::MAX } else { share as u32 };
                    let mut source = String::new();
                    push_str(&mut source, "derived from system memory (");
                    push_decimal(&mut source, total as u128);
                    push_str(&mut source, " MiB total, four fifths of it)");
                    Ok(Ceiling { limit_mib: Some(limit), source })
                },
                None => Ok(Ceiling { limit_mib: None, source: String::new() }),
            },
        },
    }
}

/// The startup line for the budget: the ceiling and what the machine was
/// read for to set it, or that models are unloaded to make room; or that
/// there is none.
pub open spec fn budget_text(limit: Option<u32>, source: Seq<char>) -> Seq<char> {
    match limit {
        Some(l) => "memory budget: "@ + decimal(l as nat) + " MiB, "@ + if source.len() == 0 {
            "so models are unloaded to make room"@
        } else {
            source
        },
        None => "memory budget: none, so nothing is ever unloaded to make room"@,
    }
}

/// The startup line for the budget.
pub fn budget_line(limit: Option<u32>, source: &str) -> (line: String)
    ensures
        line@ == budget_text(limit, source@),
{
    let mut line = String::new();
    match limit {
        Some(l) => {
            push_str(&mut line, "memory budget: ");
            push_decimal(&mut line, l as u128);
            push_str(&mut line, " MiB, ");
            if source.unicode_len() == 0 {
                push_str(&mut line, "so models are unloaded to make room");
            } else {
                push_str(&mut line, source);
            }
        },
        None => push_str(&mut line, "memory budget: none, so nothing is ever unloaded to make room"),
    }
    line
}

/// The startup line for what the residents reserve: a resident is memory
/// the router promises never to reclaim, so the budget has to cover the
/// residents plus the largest entry expected beside them.
pub open spec fn reservation_text(limit: Option<u32>, reserved: u64) -> Seq<char> {
    match limit {
        Some(l) => if reserved <= l {
            "residents reserve "@ + decimal(reserved as nat) + " MiB of "@ + decimal(l as nat) + " MiB, leaving "@
                + decimal((l - reserved) as nat) + " MiB for everything else"@
        } else {
            "residents reserve "@ + decimal(reserved as nat) + " MiB, more than the "@ + decimal(l as nat)
                + " MiB budget, so nothing else fits beside them"@
        },
        None => "residents reserve "@ + decimal(reserved as nat) + " MiB, and no budget holds anything to it"@,
    }
}

/// The startup line for what the residents reserve.
pub fn reservation_line(limit: Option<u32>, reserved: u64) -> (line: String)
    ensures
        line@ == reservation_text(limit, reserved),
{
    let mut line = String::new();
    push_str(&mut line, "residents reserve ");
    push_decimal(&mut line, reserved as u128);
    match limit {
        Some(l) => if reserved <= l as u64 {
            push_str(&mut line, " MiB of ");
            push_decimal(&mut line, l as u128);
            push_str(&mut line, " MiB, leaving ");
            push_decimal(&mut line, (l as u64 - reserved) as u128);
            push_str(&mut line, " MiB for everything else");
        } else {
            push_str(&mut line, " MiB, more than the ");
            push_decimal(&mut line, l as u128);
            push_str(&mut line, " MiB budget, so nothing else fits beside them");
        },
        None => push_str(&mut line, " MiB, and no budget holds anything to it"),
    }
    line
}

/// The idle window: the variable's seconds when set, not empty and not
/// zero; otherwise none, so nothing is unloaded for sitting idle.
pub open spec fn idle_window_from(value: Option<Seq<char>>) -> Result<Option<u64>, Seq<char>> {
    match setting_value("MAESTRO_IDLE_UNLOAD_SECONDS"@, value, u64::MAX) {
        Ok(Some(0)) => Ok(None),
        other => other,
    }
}

/// The idle window, from its variable's value.
pub fn idle_window(value: Option<&str>) -> (window: Result<Option<u64>, String>)
    ensures
        match idle_window_from(
            match value {
                Some(v) => Some(v@),
                None => None,
            },
        ) {
            Ok(n) => window == Ok::<Option<u64>, String>(n),
            Err(m) => window matches Err(e) && e@ == m,
        },
{
    match whole_setting("MAESTRO_IDLE_UNLOAD_SECONDS", value, u64::MAX) {
        Ok(Some(0)) => Ok(None),
        other => other,
    }
}

/// The startup line for the idle window.
pub open spec fn idle_text(seconds: Option<u64>) -> Seq<char> {
    match seconds {
        Some(s) => "idle window: "@ + decimal(s as nat) + " seconds, so an unused on-demand model is unloaded after that long"@,
        None => "idle window: none, so nothing is ever unloaded for sitting idle"@,
    }
}

/// The startup line for the idle window.
pub fn idle_line(seconds: Option<u64>) -> (line: String)
    ensures
        line@ == idle_text(seconds),
{
    let mut line = String::new();
    match seconds {
        Some(s) => {
            push_str(&mut line, "idle window: ");
            push_decimal(&mut line, s as u128);
            push_str(&mut line, " seconds, so an unused on-demand model is unloaded after that long");
        },
        None => push_str(&mut line, "idle window: none, so nothing is ever unloaded for sitting idle"),
    }
    line
}

/// How long a request waits for room held by another: the variable's
/// seconds when set and not empty, `0` refusing at once; otherwise a minute.
pub open spec fn admission_wait_from(value: Option<Seq<char>>) -> Result<u64, Seq<char>> {
    match setting_value("MAESTRO_ADMISSION_WAIT_SECONDS"@, value, u64::MAX) {
        Ok(Some(n)) => Ok(n),
        Ok(None) => Ok(60),
        Err(m) => Err(m),
    }
}

/// How long a request waits for room, from its variable's value.
pub fn admission_wait(value: Option<&str>) -> (wait: Result<u64, String>)
    ensures
        match admission_wait_from(
            match value {
                Some(v) => Some(v@),
                None => None,
            },
        ) {
            Ok(n) => wait == Ok::<u64, String>(n),
            Err(m) => wait matches Err(e) && e@ == m,
        },
{
    match whole_setting("MAESTRO_ADMISSION_WAIT_SECONDS", value, u64::MAX) {
        Ok(Some(n)) => Ok(n),
        Ok(None) => Ok(60),
        Err(m) => Err(m),
    }
}

/// The startup line for the wait for room.
pub open spec fn wait_text(seconds: u64) -> Seq<char> {
    if seconds == 0 {
        "admission wait: none, so a request whose room is held is refused at once"@
    } else {
        "admission wait: "@ + decimal(seconds as nat) + " seconds, so a request whose room is held waits that long for it"@
    }
}

/// The startup line for the wait for room.
pub fn wait_line(seconds: u64) -> (line: String)
    ensures
        line@ == wait_text(seconds),
{
    let mut line = String::new();
    if seconds == 0 {
        push_str(&mut line, "admission wait: none, so a request whose room is held is refused at once");
    } else {
        push_str(&mut line, "admission wait: ");
        push_decimal(&mut line, seconds as u128);
        push_str(&mut line, " seconds, so a request whose room is held waits that long for it");
    }
    line
}

} // verus!

verus! {

/// A ceiling set from a device keeps a margin of at least a tenth of the
/// device, and never less than 1024 MiB: a device is never empty when a
/// model loads.
pub proof fn law_a_device_ceiling_keeps_its_margin(total: u64)
    requires
        total >= 1024,
    ensures
        device_ceiling(total) + 1024 <= total,
        device_ceiling(total) + total / 10 <= total,
{
}

} // verus!
