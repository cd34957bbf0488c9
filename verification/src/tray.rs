//! What the background service's notification-area icon says: who is looking at the screen,
//! and the text it hands the system, cut to fit the system's fixed fields.
use vstd::prelude::*;

use crate::text::{chars_equal, chars_of, decimal_text, push_decimal, push_str, string_of};

verus! {

/// A paired device looking at this PC's screen.
#[derive(Clone, Debug, PartialEq, Eq)]
pub struct ScreenWatcher {
    pub display_name: String,
    pub controlling: bool,
}

pub open spec fn watchers_view(watchers: Seq<ScreenWatcher>) -> Seq<(Seq<char>, bool)> {
    watchers.map_values(|w: ScreenWatcher| (w.display_name@, w.controlling))
}

/// The status line: nobody, one device by name, or how many, saying whether one controls.
pub open spec fn describe_spec(watchers: Seq<(Seq<char>, bool)>) -> Seq<char> {
    if watchers.len() == 0 {
        "Paired devices can reach this PC"@
    } else if watchers.len() == 1 {
        if watchers[0].1 {
            watchers[0].0 + " is controlling your screen"@
        } else {
            watchers[0].0 + " is viewing your screen"@
        }
    } else if exists|i: int| 0 <= i < watchers.len() && (#[trigger] watchers[i]).1 {
        decimal_text(watchers.len()) + " devices are viewing your screen, one controlling it"@
    } else {
        decimal_text(watchers.len()) + " devices are viewing your screen"@
    }
}

/// The status line for the devices watching now.
pub fn describe(watchers: &Vec<ScreenWatcher>) -> (r: String)
    ensures
        r@ == describe_spec(watchers_view(watchers@)),
{
    let ghost wv = watchers_view(watchers@);
    let mut out: Vec<char> = Vec::new();
    if watchers.len() == 0 {
        push_str(&mut out, "Paired devices can reach this PC");
    } else if watchers.len() == 1 {
        push_str(&mut out, watchers[0].display_name.as_str());
        if watchers[0].controlling {
            push_str(&mut out, " is controlling your screen");
        } else {
            push_str(&mut out, " is viewing your screen");
        }
    } else {
        let mut any = false;
        let mut i: usize = 0;
        while i < watchers.len()
            invariant
                i <= watchers@.len(),
                wv == watchers_view(watchers@),
                any <==> exists|k: int| 0 <= k < i && (#[trigger] wv[k]).1,
            decreases watchers@.len() - i,
        {
            if watchers[i].controlling {
                any = true;
            }
            proof {
                assert(wv[i as int].1 == watchers@[i as int].controlling);
                if any && !watchers@[i as int].controlling {
                    let k = choose|k: int| 0 <= k < i && (#[trigger] wv[k]).1;
                    assert(0 <= k < i + 1 && wv[k].1);
                }
            }
            i = i + 1;
        }
        push_decimal(&mut out, watchers.len() as u64);
        if any {
            push_str(&mut out, " devices are viewing your screen, one controlling it");
        } else {
            push_str(&mut out, " devices are viewing your screen");
        }
    }
    string_of(out.as_slice())
}

/// A character in UTF-16: one code unit, or a surrogate pair above U+FFFF.
pub open spec fn utf16_of(c: char) -> Seq<u16> {
    let n = c as u32;
    if n < 0x10000 {
        seq![n as u16]
    } else {
        seq![(0xD800 + (n - 0x10000) / 0x400) as u16, (0xDC00 + (n - 0x10000) % 0x400) as u16]
    }
}

/// Text in UTF-16.
pub open spec fn utf16(s: Seq<char>) -> Seq<u16>
    decreases s.len(),
{
    if s.len() == 0 {
        Seq::empty()
    } else {
        utf16(s.drop_last()) + utf16_of(s.last())
    }
}

fn push_utf16(out: &mut Vec<u16>, c: char)
    ensures
        final(out)@ == old(out)@ + utf16_of(c),
{
    let n = c as u32;
    if n < 0x10000 {
        out.push(n as u16);
    } else {
        out.push((0xD800 + (n - 0x10000) / 0x400) as u16);
        out.push((0xDC00 + (n - 0x10000) % 0x400) as u16);
    }
    assert(final(out)@ =~= old(out)@ + utf16_of(c));
}

fn encode_utf16(value: &str) -> (r: Vec<u16>)
    ensures
        r@ == utf16(value@),
{
    let chars = chars_of(value);
    let mut out: Vec<u16> = Vec::new();
    let mut i: usize = 0;
    while i < chars.len()
        invariant
            i <= chars@.len(),
            chars@ == value@,
            out@ == utf16(chars@.take(i as int)),
        decreases chars@.len() - i,
    {
        push_utf16(&mut out, chars[i]);
        proof {
            assert(chars@.take(i + 1).drop_last() =~= chars@.take(i as int));
        }
        i = i + 1;
    }
    assert(chars@.take(chars@.len() as int) =~= chars@);
    out
}

/// `value` in UTF-16 with a terminating zero, as the system's wide-string calls take it.
pub fn wide(value: &str) -> (r: Vec<u16>)
    ensures
        r@ == utf16(value@).push(0),
{
    let mut out = encode_utf16(value);
    out.push(0);
    out
}

/// Copies `value` into a fixed field, cut short to fit with its terminator: the first
/// `field.len() - 1` code units, then a zero; the rest of the field is left as it was.
pub fn fill(field: &mut [u16], value: &str)
    requires
        old(field)@.len() >= 1,
    ensures
        final(field)@.len() == old(field)@.len(),
        ({
            let units = utf16(value@);
            let k = if units.len() < old(field)@.len() - 1 { units.len() as int } else { old(field)@.len() - 1 };
            final(field)@ == units.take(k) + seq![0u16] + old(field)@.skip(k + 1)
        }),
{
    let units = encode_utf16(value);
    let room = field.len() - 1;
    let k = if units.len() < room { units.len() } else { room };
    let ghost start = field@;
    let mut i: usize = 0;
    while i < k
        invariant
            k <= units@.len(),
            k < field@.len(),
            field@.len() == start.len(),
            i <= k,
            forall|j: int| 0 <= j < i ==> field@[j] == units@[j],
            forall|j: int| i <= j < field@.len() ==> field@[j] == start[j],
        decreases k - i,
    {
        field[i] = units[i];
        i = i + 1;
    }
    field[k] = 0;
    assert(field@ =~= units@.take(k as int) + seq![0u16] + start.skip(k + 1));
}

/// The names among `names` that were not among `before`, in order: devices that just started
/// watching.
pub open spec fn newcomers_spec(names: Seq<Seq<char>>, before: Seq<Seq<char>>) -> Seq<Seq<char>>
    decreases names.len(),
{
    if names.len() == 0 {
        Seq::empty()
    } else {
        let rest = newcomers_spec(names.drop_last(), before);
        if before.contains(names.last()) {
            rest
        } else {
            rest.push(names.last())
        }
    }
}

pub open spec fn names_view(names: Seq<String>) -> Seq<Seq<char>> {
    names.map_values(|n: String| n@)
}

/// The devices watching now that were not watching at the last look.
pub fn newcomers(names: &Vec<String>, before: &Vec<String>) -> (r: Vec<String>)
    ensures
        names_view(r@) == newcomers_spec(names_view(names@), names_view(before@)),
{
    let ghost nv = names_view(names@);
    let ghost bv = names_view(before@);
    let mut out: Vec<String> = Vec::new();
    let mut i: usize = 0;
    while i < names.len()
        invariant
            i <= names@.len(),
            nv == names_view(names@),
            bv == names_view(before@),
            names_view(out@) == newcomers_spec(nv.take(i as int), bv),
        decreases names@.len() - i,
    {
        let name = chars_of(names[i].as_str());
        let mut seen = false;
        let mut j: usize = 0;
        while j < before.len()
            invariant
                j <= before@.len(),
                bv == names_view(before@),
                name@ == names@[i as int]@,
                seen <==> exists|k: int| 0 <= k < j && bv[k] == name@,
            decreases before@.len() - j,
        {
            if chars_equal(chars_of(before[j].as_str()).as_slice(), name.as_slice()) {
                seen = true;
            }
            proof {
                assert(bv[j as int] == before@[j as int]@);
                if seen && bv[j as int] != name@ {
                    let k = choose|k: int| 0 <= k < j && bv[k] == name@;
                    assert(0 <= k < j + 1);
                }
            }
            j = j + 1;
        }
        proof {
            assert(nv.take(i + 1).drop_last() =~= nv.take(i as int));
            assert(nv.take(i + 1).last() == name@);
            if seen {
                let k = choose|k: int| 0 <= k < before@.len() && bv[k] == name@;
                assert(bv.contains(name@));
            } else {
                assert(!bv.contains(name@)) by {
                    if bv.contains(name@) {
                        let k = choose|k: int| 0 <= k < bv.len() && bv[k] == name@;
                        assert(0 <= k < before@.len());
                    }
                }
            }
        }
        if !seen {
            let copy = names[i].clone();
            proof {
                assert(names_view(out@.push(copy)) =~= names_view(out@).push(copy@));
            }
            out.push(copy);
        }
        i = i + 1;
    }
    assert(nv.take(names@.len() as int) =~= nv);
    out
}

/// The icon's tooltip: `Multiplex: ` and the status line.
pub fn tooltip(watchers: &Vec<ScreenWatcher>) -> (r: String)
    ensures
        r@ == "Multiplex: "@ + describe_spec(watchers_view(watchers@)),
{
    let mut out: Vec<char> = Vec::new();
    push_str(&mut out, "Multiplex: ");
    let line = describe(watchers);
    push_str(&mut out, line.as_str());
    string_of(out.as_slice())
}

/// The notification shown when a device starts watching.
pub fn watching_notice(name: &str) -> (r: String)
    ensures
        r@ == name@ + " started viewing your screen."@,
{
    let mut out: Vec<char> = Vec::new();
    push_str(&mut out, name);
    push_str(&mut out, " started viewing your screen.");
    string_of(out.as_slice())
}

} // verus!
