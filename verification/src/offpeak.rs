//! Whether this is a cheap hour, as a caller is told and as a shell reads it.

use vstd::prelude::*;
use vstd::string::*;

use crate::number::{dec, dec_of};

verus! {

/// What is printed, and the code that the process ends with: a shell goes on at zero.
pub open spec fn verdict_of(off_peak: bool, verbose: bool, now: nat) -> (Seq<char>, i32) {
    (
        if verbose {
            "comp-offpeak: unix_secs="@ + dec_of(now) + " off_peak="@ + (if off_peak {
                "true"@
            } else {
                "false"@
            })
        } else if off_peak {
            "off-peak"@
        } else {
            "peak"@
        },
        if off_peak {
            0i32
        } else {
            1i32
        },
    )
}

/// What is printed, and the code that the process ends with.
pub fn verdict(off_peak: bool, verbose: bool, now: u64) -> (r: (String, i32))
    ensures
        (r.0@, r.1) == verdict_of(off_peak, verbose, now as nat),
{
    let code: i32 = if off_peak {
        0
    } else {
        1
    };
    let line = if verbose {
        let word = if off_peak {
            "true"
        } else {
            "false"
        };
        "comp-offpeak: unix_secs=".to_string().concat(dec(now).as_str()).concat(
            " off_peak=",
        ).concat(word)
    } else if off_peak {
        "off-peak".to_string()
    } else {
        "peak".to_string()
    };
    (line, code)
}

/// A verdict succeeds exactly off-peak, whether it is told at length or not.
pub proof fn law_a_verdict_succeeds_off_peak(off_peak: bool, verbose: bool, now: nat)
    ensures
        verdict_of(off_peak, verbose, now).1 == 0 <==> off_peak,
        !off_peak ==> verdict_of(off_peak, verbose, now).1 == 1,
        !verbose && off_peak ==> verdict_of(off_peak, verbose, now).0 == "off-peak"@,
        !verbose && !off_peak ==> verdict_of(off_peak, verbose, now).0 == "peak"@,
        verbose && off_peak ==> verdict_of(off_peak, verbose, now).0 == "comp-offpeak: unix_secs="@
            + dec_of(now) + " off_peak="@ + "true"@,
        verbose && !off_peak ==> verdict_of(off_peak, verbose, now).0 == "comp-offpeak: unix_secs="@
            + dec_of(now) + " off_peak="@ + "false"@,
{
}

} // verus!
