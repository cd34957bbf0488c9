//! Which Multiplex this is, for a person checking for an update or filing a bug.
use vstd::prelude::*;

use crate::text::{push_str, string_of};

verus! {

pub const SOURCE_URL: &'static str = "https://github.com/millionrust/multiplex";
pub const LICENSE: &'static str = "MIT OR Apache-2.0";

/// The commit the build found, or `unknown` when it was not built from a Git checkout.
pub fn build_commit(found: Option<&'static str>) -> (r: &'static str)
    ensures
        r@ == match found {
            Some(c) => c@,
            None => "unknown"@,
        },
{
    match found {
        Some(c) => c,
        None => "unknown",
    }
}

/// The platform as the about card shows it: the operating system, a space, the architecture.
pub fn platform(os: &str, arch: &str) -> (r: String)
    ensures
        r@ == os@ + " "@ + arch@,
{
    let mut out: Vec<char> = Vec::new();
    push_str(&mut out, os);
    push_str(&mut out, " ");
    push_str(&mut out, arch);
    string_of(out.as_slice())
}

/// One line with everything a bug report needs: `Multiplex <version> (<commit>) on <os> <arch>`.
pub fn details(version: &str, commit: Option<&'static str>, os: &str, arch: &str) -> (r: String)
    ensures
        r@ == "Multiplex "@ + version@ + " ("@ + build_commit_text(commit) + ") on "@ + os@ + " "@ + arch@,
{
    let mut out: Vec<char> = Vec::new();
    push_str(&mut out, "Multiplex ");
    push_str(&mut out, version);
    push_str(&mut out, " (");
    push_str(&mut out, build_commit(commit));
    push_str(&mut out, ") on ");
    let shown = platform(os, arch);
    push_str(&mut out, shown.as_str());
    proof {
        assert(out@ =~= "Multiplex "@ + version@ + " ("@ + build_commit_text(commit) + ") on "@ + os@ + " "@ + arch@);
    }
    string_of(out.as_slice())
}

/// The commit as `build_commit` gives it.
pub open spec fn build_commit_text(found: Option<&'static str>) -> Seq<char> {
    match found {
        Some(c) => c@,
        None => "unknown"@,
    }
}

} // verus!
