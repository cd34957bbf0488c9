//! Character-level helpers the rest of the library builds its text with.
use vstd::prelude::*;

verus! {

/// Appends one character to a `String` (`String::push`).
#[verifier::external_body]
pub(crate) fn push_char(s: &mut String, c: char)
    ensures
        final(s)@ == old(s)@.push(c),
{
    s.push(c);
}

/// The characters of `s`, in order.
pub fn chars_of(s: &str) -> (r: Vec<char>)
    ensures
        r@ == s@,
{
    let mut out: Vec<char> = Vec::new();
    for c in it: s.chars()
        invariant
            out@ == it.seq().take(it.index() as int),
    {
        out.push(c);
    }
    proof {
        assert(out@ =~= s@);
    }
    out
}

/// A `String` holding exactly `v`.
pub fn string_of(v: &[char]) -> (r: String)
    ensures
        r@ == v@,
{
    let mut out = String::new();
    let mut i: usize = 0;
    while i < v.len()
        invariant
            i <= v@.len(),
            out@ == v@.take(i as int),
        decreases v@.len() - i,
    {
        push_char(&mut out, v[i]);
        proof {
            assert(v@.take(i + 1) =~= v@.take(i as int).push(v@[i as int]));
        }
        i = i + 1;
    }
    proof {
        assert(v@.take(v@.len() as int) =~= v@);
    }
    out
}


/// `needle` occurs in `hay` starting at index `at`.
pub open spec fn occurs_at(hay: Seq<char>, needle: Seq<char>, at: int) -> bool {
    0 <= at && at + needle.len() <= hay.len() && hay.subrange(at, at + needle.len()) == needle
}

/// The first index at or after `from` where `needle` occurs in `hay`.
#[verifier::opaque]
pub open spec fn first_occurrence(hay: Seq<char>, needle: Seq<char>, from: int) -> Option<int> {
    if exists|i: int| from <= i && #[trigger] occurs_at(hay, needle, i) {
        let i = choose|i: int|
            from <= i && occurs_at(hay, needle, i) && forall|j: int|
                from <= j < i ==> !#[trigger] occurs_at(hay, needle, j);
        Some(i)
    } else {
        None
    }
}

/// `hay[at..]` begins with `needle`.
pub fn occurs_here(hay: &[char], needle: &[char], at: usize) -> (r: bool)
    ensures
        r == occurs_at(hay@, needle@, at as int),
{
    if at > hay.len() || needle.len() > hay.len() - at {
        return false;
    }
    let mut k: usize = 0;
    while k < needle.len()
        invariant
            at + needle@.len() <= hay@.len(),
            hay@.len() == hay.len(),
            needle@.len() == needle.len(),
            k <= needle@.len(),
            forall|j: int| 0 <= j < k ==> hay@[at + j] == needle@[j],
        decreases needle@.len() - k,
    {
        if hay[at + k] != needle[k] {
            proof {
                assert(hay@.subrange(at as int, at + needle@.len())[k as int] != needle@[k as int]);
            }
            return false;
        }
        k = k + 1;
    }
    proof {
        assert(hay@.subrange(at as int, at + needle@.len()) =~= needle@);
    }
    true
}

pub proof fn lemma_first_occurrence_at(hay: Seq<char>, needle: Seq<char>, from: int, i: int)
    requires
        from <= i,
        occurs_at(hay, needle, i),
        forall|j: int| from <= j < i ==> !#[trigger] occurs_at(hay, needle, j),
    ensures
        first_occurrence(hay, needle, from) == Some(i),
{
    reveal(first_occurrence);
    let k = choose|k: int|
        from <= k && occurs_at(hay, needle, k) && forall|j: int|
            from <= j < k ==> !#[trigger] occurs_at(hay, needle, j);
    if k < i {
        assert(!occurs_at(hay, needle, k));
    }
    if i < k {
        assert(!occurs_at(hay, needle, i));
    }
}


/// What `first_occurrence` gives: a place where `needle` occurs, at or after `from`, with none
/// between `from` and it; or no such place at all.
pub proof fn lemma_first_occurrence_facts(hay: Seq<char>, needle: Seq<char>, from: int)
    ensures
        match first_occurrence(hay, needle, from) {
            Some(i) => from <= i && occurs_at(hay, needle, i) && i + needle.len() <= hay.len()
                && forall|j: int| from <= j < i ==> !#[trigger] occurs_at(hay, needle, j),
            None => forall|j: int| from <= j ==> !#[trigger] occurs_at(hay, needle, j),
        },
{
    reveal(first_occurrence);
    if exists|i: int| from <= i && #[trigger] occurs_at(hay, needle, i) {
        let i = choose|i: int| from <= i && #[trigger] occurs_at(hay, needle, i);
        lemma_least_occurrence(hay, needle, from, i);
    }
}

proof fn lemma_least_occurrence(hay: Seq<char>, needle: Seq<char>, from: int, i: int)
    requires
        from <= i,
        occurs_at(hay, needle, i),
    ensures
        exists|k: int| from <= k && occurs_at(hay, needle, k) && forall|j: int|
            from <= j < k ==> !#[trigger] occurs_at(hay, needle, j),
    decreases i - from,
{
    if exists|j: int| from <= j < i && #[trigger] occurs_at(hay, needle, j) {
        let j = choose|j: int| from <= j < i && #[trigger] occurs_at(hay, needle, j);
        lemma_least_occurrence(hay, needle, from, j);
    } else {
        assert(forall|j: int| from <= j < i ==> !#[trigger] occurs_at(hay, needle, j));
    }
}

/// The first place at or after `from` where `needle` occurs in `hay`.
pub fn find_from(hay: &[char], needle: &[char], from: usize) -> (r: Option<usize>)
    ensures
        r matches Some(i) ==> first_occurrence(hay@, needle@, from as int) == Some(i as int),
        r matches Some(i) ==> from <= i && i + needle@.len() <= hay@.len() && occurs_at(hay@, needle@, i as int),
        r is None ==> first_occurrence(hay@, needle@, from as int) is None,
{
    let mut i: usize = from;
    while i < hay.len()
        invariant
            from <= i,
            forall|j: int| from <= j < i ==> !#[trigger] occurs_at(hay@, needle@, j),
        decreases hay@.len() - i,
    {
        if occurs_here(hay, needle, i) {
            proof {
                lemma_first_occurrence_at(hay@, needle@, from as int, i as int);
            }
            return Some(i);
        }
        i = i + 1;
    }
    if i == hay.len() && occurs_here(hay, needle, i) {
        proof {
            lemma_first_occurrence_at(hay@, needle@, from as int, i as int);
        }
        return Some(i);
    }
    proof {
        reveal(first_occurrence);
        assert forall|j: int| from <= j implies !#[trigger] occurs_at(hay@, needle@, j) by {
            if j > hay@.len() {
                assert(j + needle@.len() > hay@.len());
            }
        }
    }
    None
}


/// The first place at or after `from` where `c` stands in `hay`.
pub fn find_char_from(hay: &[char], c: char, from: usize) -> (r: Option<usize>)
    ensures
        r matches Some(i) ==> first_occurrence(hay@, seq![c], from as int) == Some(i as int),
        r matches Some(i) ==> from <= i < hay@.len() && hay@[i as int] == c,
        r is None ==> first_occurrence(hay@, seq![c], from as int) is None,
{
    let mut needle: Vec<char> = Vec::new();
    needle.push(c);
    assert(needle@ =~= seq![c]);
    let r = find_from(hay, needle.as_slice(), from);
    match r {
        Some(i) => {
            assert(hay@.subrange(i as int, i + 1)[0] == c);
        },
        None => {},
    }
    r
}

/// The first place at or after `from` where the two characters `a`, `b` stand in `hay`.
pub fn find_pair_from(hay: &[char], a: char, b: char, from: usize) -> (r: Option<usize>)
    ensures
        r matches Some(i) ==> first_occurrence(hay@, seq![a, b], from as int) == Some(i as int),
        r matches Some(i) ==> from <= i && i + 2 <= hay@.len(),
        r is None ==> first_occurrence(hay@, seq![a, b], from as int) is None,
{
    let mut needle: Vec<char> = Vec::new();
    needle.push(a);
    needle.push(b);
    assert(needle@ =~= seq![a, b]);
    find_from(hay, needle.as_slice(), from)
}

/// Whether `hay[at..]` begins with the two characters `a`, `b`.
pub fn pair_here(hay: &[char], a: char, b: char, at: usize) -> (r: bool)
    ensures
        r == occurs_at(hay@, seq![a, b], at as int),
{
    let mut needle: Vec<char> = Vec::new();
    needle.push(a);
    needle.push(b);
    assert(needle@ =~= seq![a, b]);
    occurs_here(hay, needle.as_slice(), at)
}

/// `s` without every leading `c`.
pub open spec fn trim_leading(s: Seq<char>, c: char) -> Seq<char>
    decreases s.len(),
{
    if s.len() > 0 && s[0] == c {
        trim_leading(s.drop_first(), c)
    } else {
        s
    }
}

/// `s` without every trailing `c`.
pub open spec fn trim_trailing(s: Seq<char>, c: char) -> Seq<char>
    decreases s.len(),
{
    if s.len() > 0 && s.last() == c {
        trim_trailing(s.drop_last(), c)
    } else {
        s
    }
}

/// The part of `s` before the first `c`, or all of `s` when it holds none.
pub open spec fn before_first(s: Seq<char>, c: char) -> Seq<char>
    decreases s.len(),
{
    if s.len() == 0 {
        s
    } else if s[0] == c {
        Seq::empty()
    } else {
        seq![s[0]] + before_first(s.drop_first(), c)
    }
}

/// `s` with its leading `c`s removed.
pub fn trimmed_leading(s: &[char], c: char) -> (r: Vec<char>)
    ensures
        r@ == trim_leading(s@, c),
{
    let mut i: usize = 0;
    proof {
        assert(s@.skip(0) =~= s@);
    }
    while i < s.len() && s[i] == c
        invariant
            i <= s@.len(),
            trim_leading(s@, c) == trim_leading(s@.skip(i as int), c),
        decreases s@.len() - i,
    {
        proof {
            assert(s@.skip(i as int).drop_first() =~= s@.skip(i + 1));
        }
        i = i + 1;
    }
    let mut out: Vec<char> = Vec::new();
    let mut j: usize = i;
    while j < s.len()
        invariant
            i <= j <= s@.len(),
            out@ == s@.subrange(i as int, j as int),
        decreases s@.len() - j,
    {
        out.push(s[j]);
        proof {
            assert(s@.subrange(i as int, j + 1) =~= s@.subrange(i as int, j as int).push(s@[j as int]));
        }
        j = j + 1;
    }
    proof {
        assert(out@ =~= s@.skip(i as int));
    }
    out
}

/// `s` with its trailing `c`s removed.
pub fn trimmed_trailing(s: &[char], c: char) -> (r: Vec<char>)
    ensures
        r@ == trim_trailing(s@, c),
{
    let mut n: usize = s.len();
    proof {
        assert(s@.take(s@.len() as int) =~= s@);
    }
    while n > 0 && s[n - 1] == c
        invariant
            n <= s@.len(),
            trim_trailing(s@, c) == trim_trailing(s@.take(n as int), c),
        decreases n,
    {
        proof {
            assert(s@.take(n as int).drop_last() =~= s@.take(n - 1));
        }
        n = n - 1;
    }
    let mut out: Vec<char> = Vec::new();
    let mut j: usize = 0;
    while j < n
        invariant
            j <= n <= s@.len(),
            out@ == s@.take(j as int),
        decreases n - j,
    {
        out.push(s[j]);
        proof {
            assert(s@.take(j + 1) =~= s@.take(j as int).push(s@[j as int]));
        }
        j = j + 1;
    }
    out
}

proof fn lemma_before_first_prefix(s: Seq<char>, c: char, i: int)
    requires
        0 <= i <= s.len(),
        forall|j: int| 0 <= j < i ==> s[j] != c,
    ensures
        before_first(s, c) == s.take(i) + before_first(s.skip(i), c),
    decreases i,
{
    if i > 0 {
        lemma_before_first_prefix(s.drop_first(), c, i - 1);
        assert(s.drop_first().take(i - 1) =~= s.take(i).drop_first());
        assert(s.drop_first().skip(i - 1) =~= s.skip(i));
        assert(s.take(i) =~= seq![s[0]] + s.take(i).drop_first());
    } else {
        assert(s.skip(0) =~= s);
    }
}

/// The part of `s` before the first `c`.
pub fn taken_before(s: &[char], c: char) -> (r: Vec<char>)
    ensures
        r@ == before_first(s@, c),
{
    let mut out: Vec<char> = Vec::new();
    let mut i: usize = 0;
    while i < s.len() && s[i] != c
        invariant
            i <= s@.len(),
            out@ == s@.take(i as int),
            forall|j: int| 0 <= j < i ==> s@[j] != c,
        decreases s@.len() - i,
    {
        out.push(s[i]);
        proof {
            assert(s@.take(i + 1) =~= s@.take(i as int).push(s@[i as int]));
        }
        i = i + 1;
    }
    proof {
        lemma_before_first_prefix(s@, c, i as int);
        if i < s@.len() {
            assert(s@.skip(i as int)[0] == c);
        } else {
            assert(s@.skip(i as int) =~= Seq::<char>::empty());
        }
        assert(before_first(s@, c) =~= s@.take(i as int));
    }
    out
}


/// Appends the characters of `s`.
pub fn push_str(out: &mut Vec<char>, s: &str)
    ensures
        final(out)@ == old(out)@ + s@,
{
    let chars = chars_of(s);
    push_chars(out, chars.as_slice());
}

/// Appends `more`.
pub fn push_chars(out: &mut Vec<char>, more: &[char])
    ensures
        final(out)@ == old(out)@ + more@,
{
    let mut i: usize = 0;
    while i < more.len()
        invariant
            i <= more@.len(),
            out@ == old(out)@ + more@.take(i as int),
        decreases more@.len() - i,
    {
        out.push(more[i]);
        proof {
            assert(more@.take(i + 1) =~= more@.take(i as int).push(more@[i as int]));
        }
        i = i + 1;
    }
    assert(more@.take(more@.len() as int) =~= more@);
}

/// `s[from..to]` as a vector.
pub fn slice_of(s: &[char], from: usize, to: usize) -> (r: Vec<char>)
    requires
        from <= to <= s@.len(),
    ensures
        r@ == s@.subrange(from as int, to as int),
{
    let mut out: Vec<char> = Vec::new();
    push_chars(&mut out, vstd::slice::slice_subrange(s, from, to));
    assert(out@ =~= s@.subrange(from as int, to as int));
    out
}

/// Whether two character sequences are equal.
pub fn chars_equal(a: &[char], b: &[char]) -> (r: bool)
    ensures
        r == (a@ == b@),
{
    if a.len() != b.len() {
        return false;
    }
    let mut i: usize = 0;
    while i < a.len()
        invariant
            a@.len() == b@.len(),
            i <= a@.len(),
            a@.take(i as int) == b@.take(i as int),
        decreases a@.len() - i,
    {
        if a[i] != b[i] {
            return false;
        }
        proof {
            assert(a@.take(i + 1) =~= a@.take(i as int).push(a@[i as int]));
            assert(b@.take(i + 1) =~= b@.take(i as int).push(b@[i as int]));
        }
        i = i + 1;
    }
    assert(a@ =~= a@.take(a@.len() as int));
    assert(b@ =~= b@.take(b@.len() as int));
    true
}

/// The last index before `before` where `c` stands in `s`.
pub open spec fn last_before(s: Seq<char>, c: char, before: int) -> Option<int>
    decreases before,
{
    if before <= 0 {
        None
    } else if s[before - 1] == c {
        Some(before - 1)
    } else {
        last_before(s, c, before - 1)
    }
}

/// The last place before `before` where `c` stands in `s`.
pub fn find_last_before(s: &[char], c: char, before: usize) -> (r: Option<usize>)
    requires
        before <= s@.len(),
    ensures
        r matches Some(i) ==> last_before(s@, c, before as int) == Some(i as int) && i < before,
        r is None ==> last_before(s@, c, before as int) is None,
{
    let mut n: usize = before;
    while n > 0
        invariant
            n <= before <= s@.len(),
            last_before(s@, c, before as int) == last_before(s@, c, n as int),
        decreases n,
    {
        if s[n - 1] == c {
            return Some(n - 1);
        }
        n = n - 1;
    }
    None
}

/// Whether `c` is white space in the Unicode sense, as `char::is_whitespace` has it.
pub open spec fn is_white(c: char) -> bool {
    let n = c as u32;
    ||| 0x09 <= n <= 0x0d
    ||| n == 0x20
    ||| n == 0x85
    ||| n == 0xa0
    ||| n == 0x1680
    ||| 0x2000 <= n <= 0x200a
    ||| n == 0x2028
    ||| n == 0x2029
    ||| n == 0x202f
    ||| n == 0x205f
    ||| n == 0x3000
}

pub fn white(c: char) -> (r: bool)
    ensures
        r == is_white(c),
{
    let n = c as u32;
    (0x09 <= n && n <= 0x0d) || n == 0x20 || n == 0x85 || n == 0xa0 || n == 0x1680
        || (0x2000 <= n && n <= 0x200a) || n == 0x2028 || n == 0x2029 || n == 0x202f || n == 0x205f
        || n == 0x3000
}

/// How many white-space characters `s` starts with.
pub open spec fn white_prefix(s: Seq<char>) -> nat
    decreases s.len(),
{
    if s.len() > 0 && is_white(s[0]) {
        1 + white_prefix(s.drop_first())
    } else {
        0
    }
}

pub proof fn lemma_white_prefix(s: Seq<char>)
    ensures
        white_prefix(s) <= s.len(),
    decreases s.len(),
{
    if s.len() > 0 && is_white(s[0]) {
        lemma_white_prefix(s.drop_first());
    }
}

/// `s` without its leading white space, as `str::trim_start` has it.
pub open spec fn trim_white(s: Seq<char>) -> Seq<char> {
    s.skip(white_prefix(s) as int)
}

/// The index of the first character at or after `from` that is not white space.
pub fn skip_white(s: &[char], from: usize) -> (r: usize)
    requires
        from <= s@.len(),
    ensures
        r == from + white_prefix(s@.skip(from as int)),
        r <= s@.len(),
{
    let mut i: usize = from;
    proof {
        lemma_white_prefix(s@.skip(from as int));
    }
    while i < s.len() && white(s[i])
        invariant
            from <= i <= s@.len(),
            from + white_prefix(s@.skip(from as int)) == i + white_prefix(s@.skip(i as int)),
        decreases s@.len() - i,
    {
        proof {
            assert(s@.skip(i as int).drop_first() =~= s@.skip(i + 1));
        }
        i = i + 1;
    }
    i
}

/// `s` begins with `prefix`.
pub open spec fn starts_with(s: Seq<char>, prefix: Seq<char>) -> bool {
    prefix.len() <= s.len() && s.take(prefix.len() as int) == prefix
}


/// The pieces of `s` between occurrences of `c`, as `str::split` gives them: one more piece
/// than there are `c`s, empty pieces included.
pub open spec fn split_on(s: Seq<char>, c: char) -> Seq<Seq<char>>
    decreases s.len(),
{
    if s.len() == 0 {
        seq![Seq::empty()]
    } else {
        let p = split_on(s.drop_last(), c);
        if s.last() == c {
            p.push(Seq::empty())
        } else {
            p.update(p.len() - 1, p.last().push(s.last()))
        }
    }
}

pub proof fn lemma_split_nonempty(s: Seq<char>, c: char)
    ensures
        split_on(s, c).len() >= 1,
    decreases s.len(),
{
    if s.len() > 0 {
        lemma_split_nonempty(s.drop_last(), c);
    }
}

/// The pieces of `s` split at `c`, in order.
pub fn split_chars(s: &[char], c: char) -> (r: Vec<Vec<char>>)
    ensures
        r@.map_values(|p: Vec<char>| p@) == split_on(s@, c),
{
    let mut done: Vec<Vec<char>> = Vec::new();
    let mut current: Vec<char> = Vec::new();
    let mut i: usize = 0;
    proof {
        assert(s@.take(0) =~= Seq::<char>::empty());
    }
    while i < s.len()
        invariant
            i <= s@.len(),
            split_on(s@.take(i as int), c) == done@.map_values(|p: Vec<char>| p@).push(current@),
        decreases s@.len() - i,
    {
        let ghost before = split_on(s@.take(i as int), c);
        proof {
            assert(s@.take(i + 1).drop_last() =~= s@.take(i as int));
        }
        if s[i] == c {
            let finished = current;
            current = Vec::new();
            proof {
                assert(done@.push(finished).map_values(|p: Vec<char>| p@) =~= done@.map_values(|p: Vec<char>| p@).push(finished@));
                assert(split_on(s@.take(i + 1), c) =~= before.push(Seq::empty()));
            }
            done.push(finished);
        } else {
            current.push(s[i]);
            proof {
                assert(split_on(s@.take(i + 1), c) =~= done@.map_values(|p: Vec<char>| p@).push(current@));
            }
        }
        i = i + 1;
    }
    proof {
        assert(s@.take(s@.len() as int) =~= s@);
    }
    let ghost last = current@;
    done.push(current);
    assert(done@.map_values(|p: Vec<char>| p@) =~= split_on(s@, c));
    done
}

/// The decimal digits of `n`, without leading zeros.
pub open spec fn decimal_text(n: nat) -> Seq<char>
    decreases n,
{
    if n < 10 {
        seq![(48 + n) as char]
    } else {
        decimal_text(n / 10).push((48 + n % 10) as char)
    }
}

/// Appends the decimal digits of `n`.
pub fn push_decimal(out: &mut Vec<char>, n: u64)
    ensures
        final(out)@ == old(out)@ + decimal_text(n as nat),
    decreases n,
{
    if n >= 10 {
        push_decimal(out, n / 10);
    }
    out.push(((n % 10) as u8 + 48) as char);
    proof {
        if n >= 10 {
            assert(decimal_text(n as nat) == decimal_text((n / 10) as nat).push((48 + n % 10) as char));
        } else {
            assert(decimal_text(n as nat) =~= seq![(48 + n) as char]);
        }
    }
    assert(final(out)@ =~= old(out)@ + decimal_text(n as nat)) by {
        if n >= 10 {
            assert(decimal_text(n as nat) == decimal_text((n / 10) as nat).push((48 + n % 10) as char));
        }
    }
}


} // verus!
