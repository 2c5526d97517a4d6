//! What the daemon is started with.

use vstd::prelude::*;
use vstd::string::*;

use crate::text::{trim, trim_of};

verus! {

/// A secret: what its file holds, trimmed, which wins; else what was given directly.
pub fn secret(direct: Option<String>, file: Option<String>, name: &str) -> (r: Result<
    String,
    String,
>)
    ensures
        r is Ok <==> file is Some || direct is Some,
        r matches Ok(s) ==> s@ == match file {
            Some(f) => trim_of(f@),
            None => direct->Some_0@,
        },
        r matches Err(e) ==> e@ == "--"@ + name@ + " or --"@ + name@ + "-file is required"@,
{
    match file {
        Some(f) => Ok(trim(f.as_str())),
        None => match direct {
            Some(d) => Ok(d),
            None => Err(
                "--".to_string().concat(name).concat(" or --").concat(name).concat(
                    "-file is required",
                ),
            ),
        },
    }
}

} // verus!
