//! How long to wait after a failed login.

use vstd::prelude::*;

verus! {

/// From this many failures in a row on, each one lengthens the pause. This is
/// only a coarse speed bump at the terminal; lockout policy belongs in PAM.
pub const BACKOFF_AFTER_FAILURES: u32 = 3;

/// The longest pause, in milliseconds.
pub const MAX_BACKOFF: u64 = 10_000;

/// The pause after a failure that is not yet penalised, in milliseconds.
pub const BASE_PAUSE: u64 = 1_200;

/// What each penalised failure adds, in milliseconds.
pub const PENALTY_STEP: u64 = 800;

/// The pause after so many failures in a row, in milliseconds: the base pause,
/// one penalty step for each failure from the third on, and no more than the
/// longest pause.
pub open spec fn pause(failures: nat) -> nat {
    let penalised = failures - BACKOFF_AFTER_FAILURES + 1;
    if penalised <= 0 {
        BASE_PAUSE as nat
    } else if BASE_PAUSE + PENALTY_STEP * penalised < MAX_BACKOFF {
        (BASE_PAUSE + PENALTY_STEP * penalised) as nat
    } else {
        MAX_BACKOFF as nat
    }
}

/// The pause after `consecutive_failures` failed logins, in milliseconds.
pub fn backoff_delay(consecutive_failures: u32) -> (r: u64)
    ensures
        r == pause(consecutive_failures as nat),
{
    if consecutive_failures < BACKOFF_AFTER_FAILURES {
        return BASE_PAUSE;
    }
    let extra_steps: u32 = consecutive_failures - BACKOFF_AFTER_FAILURES + 1;
    let steps: u64 = if extra_steps < 20 { extra_steps as u64 } else { 20 };
    let total: u64 = BASE_PAUSE + PENALTY_STEP * steps;
    if total < MAX_BACKOFF {
        total
    } else {
        MAX_BACKOFF
    }
}

/// More failures never shorten the pause.
pub proof fn law_pause_never_shrinks(fewer: nat, more: nat)
    requires
        fewer <= more,
    ensures
        pause(fewer) <= pause(more),
{
}

/// The pause is at least the base pause and at most the longest one; it is the
/// base pause below the threshold, and above it longer.
pub proof fn law_pause_bounds(failures: nat)
    ensures
        BASE_PAUSE <= pause(failures) <= MAX_BACKOFF,
        failures < BACKOFF_AFTER_FAILURES <==> pause(failures) == BASE_PAUSE,
{
}

/// The first two failures are followed by the base pause. From the third on each
/// adds eight tenths of a second, up to ten seconds.
pub proof fn law_pause_grows_by_steps(failures: nat)
    ensures
        failures <= 2 ==> pause(failures) == 1_200,
        failures >= 2 && pause(failures) + 800 <= 10_000 ==> pause(failures + 1) == pause(failures)
            + 800,
        failures >= 2 && pause(failures) + 800 > 10_000 ==> pause(failures + 1) == 10_000,
{
}

} // verus!
