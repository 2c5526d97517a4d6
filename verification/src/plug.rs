//! What is told of a composition: what would be plugged, and what nothing exports.

use vstd::prelude::*;
use vstd::string::*;

use crate::text::{join, join_of, strs};

verus! {

/// Why nothing can be composed where no component is built.
pub fn nothing_built(dirs: &Vec<String>) -> (out: String)
    ensures
        out@ == "no built components under "@ + join_of(strs(dirs@), ", "@)
            + " — run `just build`"@,
{
    "no built components under ".to_string().concat(join(dirs, ", ").as_str()).concat(
        " — run `just build`",
    )
}

/// The line of an interface that nothing built exports.
pub fn missing_line(node: &str, iface: &str) -> (out: String)
    ensures
        out@ == "  ! nothing built exports "@ + iface@ + " (imported by "@ + node@ + ")"@,
{
    "  ! nothing built exports ".to_string().concat(iface).concat(" (imported by ").concat(
        node,
    ).concat(")")
}

/// The line of what would be plugged.
pub fn wiring_line(component: &str, plugs: &Vec<String>) -> (out: String)
    ensures
        out@ == component@ + " plugs: "@ + join_of(strs(plugs@), ", "@),
{
    component.to_string().concat(" plugs: ").concat(join(plugs, ", ").as_str())
}

} // verus!
