//! Multiplex's own environment variables, read under both the name it uses now and the one it
//! used before the product was renamed.
//!
//! Every variable this application defines is spelled `MULTIPLEX_SOMETHING`; it used to be
//! spelled `TERMIRUST_SOMETHING`. The old name is a fallback, never an override: when both are
//! set the new one wins. The legacy name is derived from the new one, so a caller cannot read a
//! pair that does not correspond. Reading the environment is the caller's.
use vstd::prelude::*;

use crate::text::{chars_of, push_chars, push_str, slice_of, string_of};

verus! {

/// The prefix every variable this application defines carries.
pub const PREFIX: &'static str = "MULTIPLEX_";
/// The prefix those variables carried before the product was renamed.
pub const LEGACY_PREFIX: &'static str = "TERMIRUST_";

/// The legacy spelling of `name`: the legacy prefix in place of the current one, or `None` when
/// `name` does not start with the current prefix.
pub open spec fn legacy_name_spec(name: Seq<char>) -> Option<Seq<char>> {
    let p = PREFIX@;
    if p.len() <= name.len() && name.take(p.len() as int) == p {
        Some(LEGACY_PREFIX@ + name.skip(p.len() as int))
    } else {
        None
    }
}

/// The legacy spelling of `name`, or `None` when `name` is not one of ours: a name without the
/// prefix has no legacy equivalent to guess at, so `PATH` is `PATH`.
pub fn legacy_name(name: &str) -> (r: Option<String>)
    ensures
        match r {
            Some(l) => legacy_name_spec(name@) == Some(l@),
            None => legacy_name_spec(name@) is None,
        },
{
    let chars = chars_of(name);
    let prefix = chars_of(PREFIX);
    if prefix.len() > chars.len() {
        return None;
    }
    let head = slice_of(chars.as_slice(), 0, prefix.len());
    assert(head@ =~= name@.take(PREFIX@.len() as int));
    if !crate::text::chars_equal(head.as_slice(), prefix.as_slice()) {
        return None;
    }
    let mut out: Vec<char> = Vec::new();
    push_str(&mut out, LEGACY_PREFIX);
    let rest = slice_of(chars.as_slice(), prefix.len(), chars.len());
    push_chars(&mut out, rest.as_slice());
    assert(rest@ =~= name@.skip(PREFIX@.len() as int));
    Some(string_of(out.as_slice()))
}

/// The value a variable has: its value under the current name when that is set, otherwise its
/// value under the legacy name (`legacy`, read only where `legacy_name` gives one).
pub fn var_os(current: Option<String>, legacy: Option<String>) -> (r: Option<String>)
    ensures
        r == match current {
            Some(c) => Some(c),
            None => legacy,
        },
{
    match current {
        Some(c) => Some(c),
        None => legacy,
    }
}

/// Whether a variable is set, under either spelling, to anything but the empty string: present
/// means on.
pub fn is_set(current: Option<String>, legacy: Option<String>) -> (r: bool)
    ensures
        r == match current {
            Some(c) => c@.len() > 0,
            None => match legacy {
                Some(l) => l@.len() > 0,
                None => false,
            },
        },
{
    match var_os(current, legacy) {
        Some(value) => value.as_str().unicode_len() > 0,
        None => false,
    }
}

/// Every name of ours has a legacy twin: the same name after the legacy prefix.
pub proof fn every_name_of_ours_has_a_legacy_twin(rest: Seq<char>)
    ensures
        legacy_name_spec(PREFIX@ + rest) == Some(LEGACY_PREFIX@ + rest),
{
    assert((PREFIX@ + rest).take(PREFIX@.len() as int) =~= PREFIX@);
    assert((PREFIX@ + rest).skip(PREFIX@.len() as int) =~= rest);
}

} // verus!
