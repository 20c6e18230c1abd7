//! The lines that a run prints, by kind.

use vstd::prelude::*;

verus! {

/// `prefix`, then `msg`, then `suffix`.
fn framed(prefix: &str, msg: &str, suffix: &str) -> (r: String)
    ensures
        r@ == prefix@ + msg@ + suffix@,
{
    let mut out = prefix.to_owned();
    out.append(msg);
    out.append(suffix);
    out
}

/// A section heading.
pub fn section(msg: &str) -> (r: String)
    ensures
        r@ == "=== "@ + msg@ + " ==="@,
{
    framed("=== ", msg, " ===")
}

/// A step of the current section.
pub fn step(msg: &str) -> (r: String)
    ensures
        r@ == "  "@ + msg@,
{
    let mut out = "  ".to_owned();
    out.append(msg);
    out
}

/// A detail of the current step.
pub fn detail(msg: &str) -> (r: String)
    ensures
        r@ == "    "@ + msg@,
{
    let mut out = "    ".to_owned();
    out.append(msg);
    out
}

/// The good end of a run.
pub fn success(msg: &str) -> (r: String)
    ensures
        r@ == "  [ok] "@ + msg@,
{
    let mut out = "  [ok] ".to_owned();
    out.append(msg);
    out
}

} // verus!
