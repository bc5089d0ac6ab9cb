//! Wording of a session's time budget.

use std::time::Duration;
use vstd::prelude::*;
use crate::lifecycle::{duration_as_secs, duration_subsec_nanos, fraction_nanos, whole_secs};
use crate::json::JsonValue;
use crate::text::{decimal, push_decimal, string_from_chars};

verus! {

/// The budget, in whole seconds, rounded up: a fraction of a second counts
/// as one more second.
pub open spec fn rounded_secs(secs: u64, nanos: u32) -> nat {
    secs as nat + if nanos > 0 { 1nat } else { 0nat }
}

/// A budget of `total` seconds the way someone would say it: hours and
/// minutes once there is an hour (`1h`, `1h30m`), minutes and a non-zero
/// remainder of seconds once there is a minute (`5m`, `2m5s`), and seconds
/// otherwise (`45s`).
pub open spec fn budget_text(total: nat) -> Seq<char> {
    let hours = total / 3600;
    let minutes = (total % 3600) / 60;
    let seconds = total % 60;
    if hours > 0 {
        if minutes > 0 {
            decimal(hours) + seq!['h'] + decimal(minutes) + seq!['m']
        } else {
            decimal(hours) + seq!['h']
        }
    } else if minutes > 0 {
        if seconds > 0 {
            decimal(minutes) + seq!['m'] + decimal(seconds) + seq!['s']
        } else {
            decimal(minutes) + seq!['m']
        }
    } else {
        decimal(seconds) + seq!['s']
    }
}

/// Renders a budget given as whole seconds and a fractional part in
/// nanoseconds, rounding up to the next whole second.
pub fn format_budget_parts(secs: u64, nanos: u32) -> (r: String)
    requires
        secs < u64::MAX || nanos == 0,
    ensures
        r@ == budget_text(rounded_secs(secs, nanos)),
{
    let total: u64 = if nanos > 0 { secs + 1 } else { secs };
    let hours = total / 3600;
    let minutes = (total % 3600) / 60;
    let seconds = total % 60;
    let mut out: Vec<char> = Vec::new();
    if hours > 0 {
        push_decimal(&mut out, hours);
        out.push('h');
        if minutes > 0 {
            push_decimal(&mut out, minutes);
            out.push('m');
        }
    } else if minutes > 0 {
        push_decimal(&mut out, minutes);
        out.push('m');
        if seconds > 0 {
            push_decimal(&mut out, seconds);
            out.push('s');
        }
    } else {
        push_decimal(&mut out, seconds);
        out.push('s');
    }
    proof {
        let t = rounded_secs(secs, nanos);
        assert(t == total as nat);
        assert(out@ =~= budget_text(t));
    }
    string_from_chars(&out)
}

/// Renders a session budget coarsely (`5m`, not `5m00s`), rounding up to the
/// next whole second.
pub fn format_budget(budget: Duration) -> (r: String)
    requires
        whole_secs(budget) < u64::MAX || fraction_nanos(budget) == 0,
    ensures
        r@ == budget_text(rounded_secs(whole_secs(budget), fraction_nanos(budget))),
{
    let secs = duration_as_secs(&budget);
    let nanos = duration_subsec_nanos(&budget);
    format_budget_parts(secs, nanos)
}

/// How an interactive session ended: saved with a value, or stopped by its
/// deadline with no answer to persist.
#[derive(Debug)]
pub enum SessionOutcome {
    /// The user finished and saved; carries the final value.
    Completed(JsonValue),
    /// The session hit its deadline before the user finished.
    TimedOut,
}

impl SessionOutcome {
    /// The final value, when the user completed the session.
    pub fn value(&self) -> (r: Option<&JsonValue>)
        ensures
            match self {
                SessionOutcome::Completed(v) => r == Some(v),
                SessionOutcome::TimedOut => r is None,
            },
    {
        match self {
            SessionOutcome::Completed(value) => Some(value),
            SessionOutcome::TimedOut => None,
        }
    }

    /// The final value, if there is one, taking the outcome apart.
    pub fn into_value(self) -> (r: Option<JsonValue>)
        ensures
            match self {
                SessionOutcome::Completed(v) => r == Some(v),
                SessionOutcome::TimedOut => r is None,
            },
    {
        match self {
            SessionOutcome::Completed(value) => Some(value),
            SessionOutcome::TimedOut => None,
        }
    }

    /// Whether the deadline fired before the user finished.
    pub fn is_timed_out(&self) -> (r: bool)
        ensures
            r == (*self is TimedOut),
    {
        match self {
            SessionOutcome::Completed(_) => false,
            SessionOutcome::TimedOut => true,
        }
    }
}

} // verus!
