//! The echo of the terminal.

use vstd::prelude::*;

verus! {

/// Whether `after` is `before` with the bits of `echo` set, or cleared, and
/// every other bit kept.
pub open spec fn echo_changed(before: u32, echo: u32, enabled: bool, after: u32) -> bool {
    &&& after & echo == if enabled {
        echo
    } else {
        0
    }
    &&& after & !echo == before & !echo
}

/// Turns echo on or off in the local flags of a terminal, given as `None` where
/// they could not be read. Gives the flags to apply, or the warning to show.
/// `echo` is the bit that stands for echo.
pub fn set_echo(flags: Option<u32>, echo: u32, enabled: bool) -> (r: Result<u32, String>)
    ensures
        match r {
            Ok(after) => flags matches Some(before) && echo_changed(before, echo, enabled, after),
            Err(warning) => flags is None && warning@
                == "warning: tcgetattr failed, could not read terminal attributes"@,
        },
{
    match flags {
        Some(before) => {
            let after: u32 = if enabled {
                before | echo
            } else {
                before & !echo
            };
            proof {
                assert((before | echo) & echo == echo) by (bit_vector);
                assert((before | echo) & !echo == before & !echo) by (bit_vector);
                assert((before & !echo) & echo == 0) by (bit_vector);
                assert((before & !echo) & !echo == before & !echo) by (bit_vector);
            }
            Ok(after)
        },
        None => Err("warning: tcgetattr failed, could not read terminal attributes".to_owned()),
    }
}

/// The warning for flags that could not be applied.
pub fn echo_warning(enabled: bool) -> (r: String)
    ensures
        r@ == if enabled {
            "warning: tcsetattr failed, could not restore terminal echo"@
        } else {
            "warning: tcsetattr failed, could not disable terminal echo"@
        },
{
    if enabled {
        "warning: tcsetattr failed, could not restore terminal echo".to_owned()
    } else {
        "warning: tcsetattr failed, could not disable terminal echo".to_owned()
    }
}

/// The duty to turn echo on again, which comes with turning echo off. Whoever
/// holds it must release it: dropping it turns nothing on.
#[derive(Debug)]
pub struct NoEchoGuard {
    echo: u32,
}

impl NoEchoGuard {
    /// The bit that stands for echo.
    pub closed spec fn echo_bit(&self) -> u32 {
        self.echo
    }

    /// Turns echo off, as [`set_echo`] does.
    pub fn new(flags: Option<u32>, echo: u32) -> (r: (NoEchoGuard, Result<u32, String>))
        ensures
            r.0.echo_bit() == echo,
            match r.1 {
                Ok(after) => flags matches Some(before) && echo_changed(
                    before,
                    echo,
                    false,
                    after,
                ),
                Err(warning) => flags is None && warning@
                    == "warning: tcgetattr failed, could not read terminal attributes"@,
            },
    {
        (NoEchoGuard { echo }, set_echo(flags, echo, false))
    }

    /// Turns echo on, as [`set_echo`] does.
    pub fn release(self, flags: Option<u32>) -> (r: Result<u32, String>)
        ensures
            match r {
                Ok(after) => flags matches Some(before) && echo_changed(
                    before,
                    self.echo_bit(),
                    true,
                    after,
                ),
                Err(warning) => flags is None && warning@
                    == "warning: tcgetattr failed, could not read terminal attributes"@,
            },
    {
        set_echo(flags, self.echo, true)
    }
}

/// There is one way to change echo.
pub proof fn law_echo_change_is_unique(before: u32, echo: u32, enabled: bool, a: u32, b: u32)
    requires
        echo_changed(before, echo, enabled, a),
        echo_changed(before, echo, enabled, b),
    ensures
        a == b,
{
    assert(a & echo == b & echo && a & !echo == b & !echo ==> a == b) by (bit_vector);
}

/// Turning echo off and on again leaves echo on and every other flag as it was;
/// where echo was on, all flags are as they were.
pub proof fn law_guard_restores_echo(before: u32, echo: u32, during: u32, after: u32)
    requires
        echo_changed(before, echo, false, during),
        echo_changed(during, echo, true, after),
    ensures
        during & echo == 0,
        echo_changed(before, echo, true, after),
        before & echo == echo ==> after == before,
{
    assert(before & echo == echo && after & echo == echo && after & !echo == before & !echo
        ==> after == before) by (bit_vector);
}

/// Turning echo on sets its bits, and turning it off clears them; either always
/// has a result.
pub proof fn law_echo_bits(before: u32, echo: u32, after: u32)
    ensures
        echo_changed(before, echo, true, after) <==> after == before | echo,
        echo_changed(before, echo, false, after) <==> after == before & !echo,
{
    assert((after & echo == echo && after & !echo == before & !echo) <==> after == before | echo)
        by (bit_vector);
    assert((after & echo == 0 && after & !echo == before & !echo) <==> after == before & !echo)
        by (bit_vector);
}

} // verus!
