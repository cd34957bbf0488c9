//! What every update check promises, whatever the releases API answers.
use vstd::prelude::*;

use crate::text::{decimal_text, lemma_split_nonempty, split_on};
use crate::update::{all_digits, candidate, check_spec, decimal_digit, digits_value, newer, newest, parse_number,
    parse_version, version_text, Package, Release, Version};

verus! {

/// `newest` picks a candidate that no other candidate is newer than, and finds one whenever
/// there is any.
proof fn lemma_newest(releases: Seq<Release>, current: Version)
    ensures
        match newest(releases, current) {
            Some((v, i)) => {
                &&& 0 <= i < releases.len()
                &&& candidate(releases[i], current) == Some(v)
                &&& forall|j: int| 0 <= j < releases.len() ==> (#[trigger] candidate(releases[j], current)
                    matches Some(w) ==> !newer(w, v))
            },
            None => forall|j: int| 0 <= j < releases.len() ==> #[trigger] candidate(releases[j], current) is None,
        },
    decreases releases.len(),
{
    if releases.len() > 0 {
        let rest = releases.drop_last();
        lemma_newest(rest, current);
        assert forall|j: int| 0 <= j < rest.len() implies #[trigger] rest[j] == releases[j] by {}
        let last = releases.len() - 1;
        assert(releases.last() == releases[last]);
        match newest(rest, current) {
            Some((b, i)) => {
                assert(candidate(rest[i], current) == Some(b));
                match candidate(releases.last(), current) {
                    Some(v) => {
                        if newer(b, v) {
                            assert(newest(releases, current) == Some((b, i)));
                            assert(releases[i] == rest[i]);
                            assert forall|j: int| 0 <= j < releases.len() implies (#[trigger] candidate(releases[j], current)
                                matches Some(w) ==> !newer(w, b)) by {
                                if j < rest.len() {
                                    assert(candidate(rest[j], current) == candidate(releases[j], current));
                                }
                            }
                        } else {
                            assert(newest(releases, current) == Some((v, last)));
                            assert forall|j: int| 0 <= j < releases.len() implies (#[trigger] candidate(releases[j], current)
                                matches Some(w) ==> !newer(w, v)) by {
                                if j < rest.len() {
                                    assert(candidate(rest[j], current) == candidate(releases[j], current));
                                }
                            }
                        }
                    },
                    None => {
                        assert(newest(releases, current) == Some((b, i)));
                        assert(releases[i] == rest[i]);
                        assert forall|j: int| 0 <= j < releases.len() implies (#[trigger] candidate(releases[j], current)
                            matches Some(w) ==> !newer(w, b)) by {
                            if j < rest.len() {
                                assert(candidate(rest[j], current) == candidate(releases[j], current));
                            }
                        }
                    },
                }
            },
            None => {
                assert forall|j: int| 0 <= j < rest.len() implies #[trigger] candidate(releases[j], current) is None by {
                    assert(candidate(rest[j], current) is None);
                }
                match candidate(releases.last(), current) {
                    Some(v) => {
                        assert(newest(releases, current) == Some((v, last)));
                        assert forall|j: int| 0 <= j < releases.len() implies (#[trigger] candidate(releases[j], current)
                            matches Some(w) ==> !newer(w, v)) by {
                            if j < rest.len() {
                                assert(candidate(rest[j], current) is None);
                            }
                        }
                    },
                    None => {
                        assert(newest(releases, current) is None);
                    },
                }
            },
        }
    }
}

/// A check offers a release exactly when a published release is newer than the running version;
/// what it offers is newer than the running version and no published release is newer still.
pub proof fn the_offer_is_the_newest_release_above_this_one(
    releases: Seq<Release>,
    current: Version,
    package: Option<Package>,
    failed: Option<Version>,
)
    ensures
        check_spec(releases, current, package, failed) is Some
            <==> exists|j: int| 0 <= j < releases.len() && #[trigger] candidate(releases[j], current) is Some,
        check_spec(releases, current, package, failed) matches Some((v, _, _)) ==> {
            &&& newer(v, current)
            &&& forall|j: int| 0 <= j < releases.len() ==> (#[trigger] candidate(releases[j], current)
                matches Some(w) ==> !newer(w, v))
        },
{
    lemma_newest(releases, current);
    match newest(releases, current) {
        Some((v, i)) => {
            assert(candidate(releases[i], current) is Some);
        },
        None => {},
    }
}

/// The version whose install failed last is never offered to install again: at most its release
/// page is.
pub proof fn a_failed_version_is_offered_only_as_a_page(
    releases: Seq<Release>,
    current: Version,
    package: Option<Package>,
    failed: Version,
)
    ensures
        check_spec(releases, current, package, Some(failed)) matches Some((v, _, files))
            ==> (v == failed ==> files is None),
{
}

/// The digit a character code from `0` to `9` above `'0'` stands for.
proof fn lemma_digit_char(k: nat)
    requires
        k < 10,
    ensures
        decimal_digit((48 + k) as char) == Some(k),
        ((48 + k) as char) != '.',
        ((48 + k) as char) != 'v',
        ((48 + k) as char) != '+',
{
    let c = (48 + k) as char;
    assert(c as u32 == 48 + k);
}

/// The decimal text of a number is one or more digits, with no `.` in it, that write the number.
proof fn lemma_decimal_text(n: nat)
    ensures
        decimal_text(n).len() > 0,
        all_digits(decimal_text(n)),
        digits_value(decimal_text(n)) == n,
        !decimal_text(n).contains('.'),
        decimal_text(n)[0] != 'v',
        decimal_text(n)[0] != '+',
    decreases n,
{
    let t = decimal_text(n);
    if n < 10 {
        lemma_digit_char(n);
        assert(t =~= seq![(48 + n) as char]);
        assert(t.drop_last() =~= Seq::<char>::empty());
        assert(t.last() == (48 + n) as char);
        assert(digits_value(Seq::<char>::empty()) == 0);
        assert(digits_value(t) == digits_value(t.drop_last()) * 10 + decimal_digit(t.last()).unwrap_or(0));
        assert(!t.contains('.')) by {
            if t.contains('.') {
                let i = choose|i: int| 0 <= i < t.len() && t[i] == '.';
                assert(i == 0);
            }
        }
    } else {
        let h = decimal_text(n / 10);
        lemma_decimal_text(n / 10);
        lemma_digit_char(n % 10);
        assert(t == h.push((48 + n % 10) as char));
        assert(t.drop_last() =~= h);
        assert(t.last() == (48 + n % 10) as char);
        assert(digits_value(t) == digits_value(h) * 10 + decimal_digit(t.last()).unwrap_or(0));
        assert((n / 10) * 10 + n % 10 == n);
        assert forall|i: int| 0 <= i < t.len() implies (#[trigger] decimal_digit(t[i])) is Some by {
            if i < h.len() {
                assert(t[i] == h[i]);
            }
        }
        assert(!t.contains('.')) by {
            if t.contains('.') {
                let i = choose|i: int| 0 <= i < t.len() && t[i] == '.';
                if i < h.len() {
                    assert(t[i] == h[i]);
                    assert(h.contains('.'));
                }
            }
        }
        assert(t[0] == h[0]);
    }
}

/// Appending text with no separator in it lengthens the last piece.
proof fn lemma_split_append(s: Seq<char>, w: Seq<char>, c: char)
    requires
        !w.contains(c),
    ensures
        split_on(s + w, c) == split_on(s, c).update(split_on(s, c).len() - 1, split_on(s, c).last() + w),
    decreases w.len(),
{
    let p = split_on(s, c);
    lemma_split_nonempty(s, c);
    if w.len() == 0 {
        assert(s + w =~= s);
        assert(p.last() + w =~= p.last());
        assert(p.update(p.len() - 1, p.last()) =~= p);
    } else {
        let v = w.drop_last();
        assert(!v.contains(c)) by {
            if v.contains(c) {
                let i = choose|i: int| 0 <= i < v.len() && v[i] == c;
                assert(w[i] == c);
            }
        }
        lemma_split_append(s, v, c);
        assert((s + w).drop_last() =~= s + v);
        assert((s + w).last() == w.last());
        assert(w.last() != c) by {
            assert(w[w.len() - 1] == w.last());
        }
        let q = split_on(s + v, c);
        assert(q.last() == p.last() + v);
        assert((p.last() + v).push(w.last()) =~= p.last() + w);
        assert(q.update(q.len() - 1, q.last().push(w.last())) =~= p.update(p.len() - 1, p.last() + w));
    }
}

/// Appending the separator starts a new, empty piece.
proof fn lemma_split_separator(s: Seq<char>, c: char)
    ensures
        split_on(s + seq![c], c) == split_on(s, c).push(Seq::<char>::empty()),
{
    assert((s + seq![c]).drop_last() =~= s);
    assert((s + seq![c]).last() == c);
}

/// The decimal text of a number parses back to it.
proof fn lemma_parse_decimal(n: u64)
    ensures
        parse_number(decimal_text(n as nat), u64::MAX as nat) == Some(n as nat),
{
    lemma_decimal_text(n as nat);
}

/// A version's text reads back as the same version.
pub proof fn a_version_reads_back_from_its_text(v: Version)
    ensures
        parse_version(version_text(v)) == Some(v),
{
    let a = decimal_text(v.0 as nat);
    let b = decimal_text(v.1 as nat);
    let c = decimal_text(v.2 as nat);
    lemma_decimal_text(v.0 as nat);
    lemma_decimal_text(v.1 as nat);
    lemma_decimal_text(v.2 as nat);
    let dot = seq!['.'];
    let e = Seq::<char>::empty();
    let t = version_text(v);
    assert(t == a + dot + b + dot + c);
    assert(t[0] == a[0]);
    lemma_split_append(e, a, '.');
    assert(e + a =~= a);
    assert(split_on(e, '.') =~= seq![e]);
    assert(split_on(a, '.') =~= seq![a]) by {
        assert(e + a =~= a);
    }
    lemma_split_separator(a, '.');
    lemma_split_append(a + dot, b, '.');
    assert(split_on(a + dot + b, '.') =~= seq![a, b]) by {
        assert(e + b =~= b);
    }
    lemma_split_separator(a + dot + b, '.');
    lemma_split_append(a + dot + b + dot, c, '.');
    assert(split_on(t, '.') =~= seq![a, b, c]) by {
        assert(e + c =~= c);
    }
    lemma_parse_decimal(v.0);
    lemma_parse_decimal(v.1);
    lemma_parse_decimal(v.2);
}

/// A version as one number, its parts as three digits base 2^64: major, then minor, then patch.
pub open spec fn version_number(v: Version) -> int {
    ((v.0 as int) * 0x1_0000_0000_0000_0000 + (v.1 as int)) * 0x1_0000_0000_0000_0000 + (v.2 as int)
}

proof fn lemma_two_digits(x1: int, y1: int, x2: int, y2: int)
    requires
        0 <= y1 < 0x1_0000_0000_0000_0000,
        0 <= y2 < 0x1_0000_0000_0000_0000,
    ensures
        (x1 * 0x1_0000_0000_0000_0000 + y1 > x2 * 0x1_0000_0000_0000_0000 + y2) <==> (x1 > x2 || (x1 == x2 && y1 > y2)),
{
    if x1 > x2 {
        assert(x1 * 0x1_0000_0000_0000_0000 >= x2 * 0x1_0000_0000_0000_0000 + 0x1_0000_0000_0000_0000)
            by (nonlinear_arith)
            requires
                x1 > x2,
        ;
    } else if x1 < x2 {
        assert(x2 * 0x1_0000_0000_0000_0000 >= x1 * 0x1_0000_0000_0000_0000 + 0x1_0000_0000_0000_0000)
            by (nonlinear_arith)
            requires
                x1 < x2,
        ;
    }
}

/// One version is newer than another exactly when it is the larger as major, minor and patch
/// taken in that order: the major decides, then the minor, and the patch only between versions
/// equal in both. So newer is a strict total order: never both ways, and between two different
/// versions always one way.
pub proof fn a_version_is_newer_by_major_then_minor_then_patch(a: Version, b: Version)
    ensures
        newer(a, b) <==> version_number(a) > version_number(b),
        a.0 != b.0 ==> (newer(a, b) <==> a.0 > b.0),
        a.0 == b.0 && a.1 != b.1 ==> (newer(a, b) <==> a.1 > b.1),
        a.0 == b.0 && a.1 == b.1 ==> (newer(a, b) <==> a.2 > b.2),
        !(newer(a, b) && newer(b, a)),
        a != b ==> newer(a, b) || newer(b, a),
{
    lemma_two_digits(a.0 as int, a.1 as int, b.0 as int, b.1 as int);
    lemma_two_digits(
        (a.0 as int) * 0x1_0000_0000_0000_0000 + (a.1 as int),
        a.2 as int,
        (b.0 as int) * 0x1_0000_0000_0000_0000 + (b.1 as int),
        b.2 as int,
    );
}

} // verus!
