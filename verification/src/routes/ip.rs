//! IP addresses as text: the grammar `str::parse::<IpAddr>` accepts, read into octets.
//!
//! An IPv4 address is four decimal numbers of at most three digits each, at most 255, with no
//! leading zero, joined by dots. An IPv6 address is up to eight groups of one to four hex digits
//! joined by colons, where one `::` stands for one or more groups of zeros and the last two
//! groups may be written as an IPv4 address. The text must be an address from end to end.
use vstd::prelude::*;

verus! {

/// The value of `c` as a digit in `radix` (10 or 16).
pub open spec fn digit_of(c: char, radix: nat) -> Option<nat> {
    if '0' <= c && c <= '9' {
        Some((c as nat - '0' as nat) as nat)
    } else if radix == 16 && 'a' <= c && c <= 'f' {
        Some((c as nat - 'a' as nat + 10) as nat)
    } else if radix == 16 && 'A' <= c && c <= 'F' {
        Some((c as nat - 'A' as nat + 10) as nat)
    } else {
        None
    }
}

/// How many digits in a row start at `pos`.
pub open spec fn run_len(s: Seq<char>, pos: int, radix: nat) -> nat
    decreases s.len() - pos,
{
    if 0 <= pos < s.len() && digit_of(s[pos], radix) is Some {
        1 + run_len(s, pos + 1, radix)
    } else {
        0
    }
}

/// The number the `n` digits at `pos` spell.
pub open spec fn run_value(s: Seq<char>, pos: int, n: nat, radix: nat) -> nat
    decreases n,
{
    if n == 0 {
        0
    } else {
        run_value(s, pos, (n - 1) as nat, radix) * radix + digit_of(s[pos + n - 1], radix).unwrap()
    }
}

/// A number read at `pos`: every digit there is taken, and the number is refused when there is
/// none, when there are more than `max_digits`, when it is above `max_value`, or when a zero
/// leads more digits and that is not allowed. Gives the value and where reading stopped.
pub open spec fn read_number(
    s: Seq<char>,
    pos: int,
    radix: nat,
    max_digits: nat,
    max_value: nat,
    allow_zero_prefix: bool,
) -> Option<(nat, int)> {
    let n = run_len(s, pos, radix);
    if n == 0 || n > max_digits || run_value(s, pos, n, radix) > max_value || (!allow_zero_prefix
        && s[pos] == '0' && n > 1) {
        None
    } else {
        Some((run_value(s, pos, n, radix), pos + n))
    }
}

/// `c` at `pos`, then what follows it.
pub open spec fn char_at(s: Seq<char>, pos: int, c: char) -> bool {
    0 <= pos < s.len() && s[pos] == c
}

/// A decimal octet at `pos`.
pub open spec fn read_octet(s: Seq<char>, pos: int) -> Option<(nat, int)> {
    read_number(s, pos, 10, 3, 255, false)
}

/// An IPv4 address starting at `pos`, and where it ends.
pub open spec fn read_ipv4(s: Seq<char>, pos: int) -> Option<(Seq<u8>, int)> {
    match read_octet(s, pos) {
        None => None,
        Some((a, p1)) => if !char_at(s, p1, '.') {
            None
        } else {
            match read_octet(s, p1 + 1) {
                None => None,
                Some((b, p2)) => if !char_at(s, p2, '.') {
                    None
                } else {
                    match read_octet(s, p2 + 1) {
                        None => None,
                        Some((c, p3)) => if !char_at(s, p3, '.') {
                            None
                        } else {
                            match read_octet(s, p3 + 1) {
                                None => None,
                                Some((d, p4)) => Some((seq![a as u8, b as u8, c as u8, d as u8], p4)),
                            }
                        },
                    }
                },
            }
        },
    }
}

/// Where the item with index `index` of a colon-separated list starts: after a colon, except
/// for the first item.
pub open spec fn after_separator(s: Seq<char>, pos: int, index: nat) -> Option<int> {
    if index == 0 {
        Some(pos)
    } else if char_at(s, pos, ':') {
        Some(pos + 1)
    } else {
        None
    }
}

/// An embedded IPv4 address as the list item `index`, read at `pos`.
pub open spec fn separated_ipv4(s: Seq<char>, pos: int, index: nat) -> Option<(Seq<u8>, int)> {
    match after_separator(s, pos, index) {
        None => None,
        Some(p) => read_ipv4(s, p),
    }
}

/// A hex group as the list item `index`, read at `pos`.
pub open spec fn separated_group(s: Seq<char>, pos: int, index: nat) -> Option<(nat, int)> {
    match after_separator(s, pos, index) {
        None => None,
        Some(p) => read_number(s, p, 16, 4, 0xffff, true),
    }
}

/// Groups read from `pos` as items `index..limit` of a list: each item is a hex group, or,
/// while at least two items are left, an IPv4 address that ends the list as two groups.
/// Gives the groups, where reading stopped, and whether an IPv4 address ended it.
pub open spec fn read_groups(s: Seq<char>, pos: int, index: nat, limit: nat) -> (Seq<u16>, int, bool)
    decreases limit - index,
{
    if index >= limit {
        (Seq::empty(), pos, false)
    } else if index + 1 < limit && separated_ipv4(s, pos, index) is Some {
        let (v4, p) = separated_ipv4(s, pos, index).unwrap();
        (seq![(v4[0] as u16 * 256 + v4[1] as u16) as u16, (v4[2] as u16 * 256 + v4[3] as u16) as u16], p, true)
    } else {
        match separated_group(s, pos, index) {
            None => (Seq::empty(), pos, false),
            Some((g, p)) => {
                let (rest, end, v4) = read_groups(s, p, index + 1, limit);
                (seq![g as u16] + rest, end, v4)
            },
        }
    }
}

/// `n` zero groups.
pub open spec fn zero_groups(n: nat) -> Seq<u16> {
    Seq::new(n, |i: int| 0u16)
}

/// An IPv6 address at the start of `s`, as eight groups, and where it ends.
pub open spec fn read_ipv6(s: Seq<char>) -> Option<(Seq<u16>, int)> {
    let (head, p, head_v4) = read_groups(s, 0, 0, 8);
    if head.len() == 8 {
        Some((head, p))
    } else if head_v4 || !char_at(s, p, ':') || !char_at(s, p + 1, ':') {
        None
    } else {
        let limit = (8 - (head.len() + 1)) as nat;
        let (tail, end, _) = read_groups(s, p + 2, 0, limit);
        Some((head + zero_groups((8 - head.len() - tail.len()) as nat) + tail, end))
    }
}

/// Sixteen octets from eight groups, high byte first.
pub open spec fn group_octets(groups: Seq<u16>) -> Seq<u8> {
    Seq::new(16, |i: int| if i % 2 == 0 { (groups[i / 2] / 256) as u8 } else { (groups[i / 2] % 256) as u8 })
}

/// The octets `s` spells when the whole of it is an IPv4 or IPv6 address: four for IPv4,
/// sixteen for IPv6. IPv4 is tried first.
pub open spec fn parsed_ip(s: Seq<char>) -> Option<Seq<u8>> {
    match read_ipv4(s, 0) {
        Some((octets, end)) => if end == s.len() {
            Some(octets)
        } else {
            None
        },
        None => match read_ipv6(s) {
            Some((groups, end)) => if end == s.len() {
                Some(group_octets(groups))
            } else {
                None
            },
            None => None,
        },
    }
}


fn digit(c: char, radix: u32) -> (r: Option<u32>)
    requires
        radix == 10 || radix == 16,
    ensures
        r is None <==> digit_of(c, radix as nat) is None,
        r matches Some(d) ==> digit_of(c, radix as nat) == Some(d as nat) && d < radix,
{
    if '0' <= c && c <= '9' {
        Some(c as u32 - '0' as u32)
    } else if radix == 16 && 'a' <= c && c <= 'f' {
        Some(c as u32 - 'a' as u32 + 10)
    } else if radix == 16 && 'A' <= c && c <= 'F' {
        Some(c as u32 - 'A' as u32 + 10)
    } else {
        None
    }
}

proof fn lemma_run_value_grows(s: Seq<char>, pos: int, k: nat, n: nat, radix: nat)
    requires
        k <= n,
        radix >= 1,
    ensures
        run_value(s, pos, k, radix) <= run_value(s, pos, n, radix),
    decreases n,
{
    if k < n {
        lemma_run_value_grows(s, pos, k, (n - 1) as nat, radix);
        let v = run_value(s, pos, (n - 1) as nat, radix);
        assert(v * radix >= v) by (nonlinear_arith)
            requires
                radix >= 1,
        ;
    }
}

proof fn lemma_run_len_split(s: Seq<char>, pos: int, i: int, radix: nat)
    requires
        0 <= pos <= i,
        forall|j: int| pos <= j < i ==> 0 <= j < s.len() && digit_of(s[j], radix) is Some,
    ensures
        run_len(s, pos, radix) == (i - pos) + run_len(s, i, radix),
    decreases i - pos,
{
    if pos < i {
        lemma_run_len_split(s, pos + 1, i, radix);
    }
}

fn read_number_at(
    s: &[char],
    pos: usize,
    radix: u32,
    max_digits: usize,
    max_value: u32,
    allow_zero_prefix: bool,
) -> (r: Option<(u32, usize)>)
    requires
        pos <= s@.len(),
        radix == 10 || radix == 16,
        1 <= max_digits <= 4,
        max_value <= 0xffff,
    ensures
        r is None <==> read_number(s@, pos as int, radix as nat, max_digits as nat, max_value as nat, allow_zero_prefix) is None,
        r matches Some((v, p)) ==> read_number(s@, pos as int, radix as nat, max_digits as nat, max_value as nat, allow_zero_prefix)
            == Some((v as nat, p as int)),
        r matches Some((v, p)) ==> v <= max_value && p <= s@.len(),
{
    // The run of digits, counted up to one past the most allowed.
    let mut i: usize = pos;
    while i < s.len() && i - pos <= max_digits && digit(s[i], radix).is_some()
        invariant
            pos <= i <= s@.len(),
            radix == 10 || radix == 16,
            i - pos <= max_digits + 1,
            forall|j: int| pos <= j < i ==> digit_of(s@[j], radix as nat) is Some,
        decreases s@.len() - i,
    {
        i = i + 1;
    }
    proof {
        lemma_run_len_split(s@, pos as int, i as int, radix as nat);
    }
    let n = i - pos;
    if n > max_digits {
        proof {
            assert(run_len(s@, pos as int, radix as nat) >= n);
        }
        return None;
    }
    proof {
        // The run ended here: no digit follows.
        assert(run_len(s@, i as int, radix as nat) == 0);
    }
    if n == 0 {
        return None;
    }
    let mut value: u32 = 0;
    let mut k: usize = 0;
    while k < n
        invariant
            n == run_len(s@, pos as int, radix as nat),
            pos + n <= s@.len(),
            n <= max_digits,
            k <= n,
            max_value <= 0xffff,
            radix == 10 || radix == 16,
            value <= max_value,
            value == run_value(s@, pos as int, k as nat, radix as nat),
            forall|j: int| pos <= j < pos + n ==> digit_of(s@[j], radix as nat) is Some,
        decreases n - k,
    {
        let d = match digit(s[pos + k], radix) {
            Some(d) => d,
            None => {
                return None;
            },
        };
        let next = value * radix + d;
        if next > max_value {
            proof {
                lemma_run_value_grows(s@, pos as int, (k + 1) as nat, n as nat, radix as nat);
            }
            return None;
        }
        value = next;
        k = k + 1;
    }
    if !allow_zero_prefix && s[pos] == '0' && n > 1 {
        return None;
    }
    Some((value, pos + n))
}

fn read_ipv4_at(s: &[char], pos: usize) -> (r: Option<(Vec<u8>, usize)>)
    requires
        pos <= s@.len(),
    ensures
        r is None <==> read_ipv4(s@, pos as int) is None,
        r matches Some((o, p)) ==> read_ipv4(s@, pos as int) == Some((o@, p as int)),
        r matches Some((o, p)) ==> p <= s@.len() && o@.len() == 4,
{
    let (a, p1) = match read_number_at(s, pos, 10, 3, 255, false) {
        Some(x) => x,
        None => {
            return None;
        },
    };
    if !(p1 < s.len() && s[p1] == '.') {
        return None;
    }
    let (b, p2) = match read_number_at(s, p1 + 1, 10, 3, 255, false) {
        Some(x) => x,
        None => {
            return None;
        },
    };
    if !(p2 < s.len() && s[p2] == '.') {
        return None;
    }
    let (c, p3) = match read_number_at(s, p2 + 1, 10, 3, 255, false) {
        Some(x) => x,
        None => {
            return None;
        },
    };
    if !(p3 < s.len() && s[p3] == '.') {
        return None;
    }
    let (d, p4) = match read_number_at(s, p3 + 1, 10, 3, 255, false) {
        Some(x) => x,
        None => {
            return None;
        },
    };
    let mut octets: Vec<u8> = Vec::new();
    octets.push(a as u8);
    octets.push(b as u8);
    octets.push(c as u8);
    octets.push(d as u8);
    proof {
        assert(octets@ =~= seq![a as u8, b as u8, c as u8, d as u8]);
    }
    Some((octets, p4))
}

fn after_separator_at(s: &[char], pos: usize, index: usize) -> (r: Option<usize>)
    requires
        pos <= s@.len(),
    ensures
        r is None <==> after_separator(s@, pos as int, index as nat) is None,
        r matches Some(p) ==> after_separator(s@, pos as int, index as nat) == Some(p as int) && p <= s@.len(),
{
    if index == 0 {
        Some(pos)
    } else if pos < s.len() && s[pos] == ':' {
        Some(pos + 1)
    } else {
        None
    }
}

fn read_groups_at(s: &[char], pos: usize, index: usize, limit: usize) -> (r: (Vec<u16>, usize, bool))
    requires
        pos <= s@.len(),
        limit <= 8,
    ensures
        read_groups(s@, pos as int, index as nat, limit as nat) == (r.0@, r.1 as int, r.2),
        r.1 <= s@.len(),
        r.0@.len() + index <= limit || index >= limit,
    decreases limit - index,
{
    if index >= limit {
        return (Vec::new(), pos, false);
    }
    if index + 1 < limit {
        if let Some(p) = after_separator_at(s, pos, index) {
            if let Some((v4, end)) = read_ipv4_at(s, p) {
                let mut groups: Vec<u16> = Vec::new();
                groups.push(v4[0] as u16 * 256 + v4[1] as u16);
                groups.push(v4[2] as u16 * 256 + v4[3] as u16);
                proof {
                    assert(groups@ =~= seq![(v4@[0] as u16 * 256 + v4@[1] as u16) as u16, (v4@[2] as u16 * 256 + v4@[3] as u16) as u16]);
                }
                return (groups, end, true);
            }
        }
    }
    let p = match after_separator_at(s, pos, index) {
        Some(p) => p,
        None => {
            return (Vec::new(), pos, false);
        },
    };
    let (g, next) = match read_number_at(s, p, 16, 4, 0xffff, true) {
        Some(x) => x,
        None => {
            return (Vec::new(), pos, false);
        },
    };
    let (rest, end, v4) = read_groups_at(s, next, index + 1, limit);
    let mut groups: Vec<u16> = Vec::new();
    groups.push(g as u16);
    let mut k: usize = 0;
    while k < rest.len()
        invariant
            groups@ == seq![g as u16] + rest@.take(k as int),
            k <= rest@.len(),
        decreases rest@.len() - k,
    {
        groups.push(rest[k]);
        proof {
            assert(rest@.take(k + 1) =~= rest@.take(k as int).push(rest@[k as int]));
            assert(seq![g as u16] + rest@.take(k + 1) =~= (seq![g as u16] + rest@.take(k as int)).push(rest@[k as int]));
        }
        k = k + 1;
    }
    proof {
        assert(rest@.take(rest@.len() as int) =~= rest@);
    }
    (groups, end, v4)
}

fn ipv6_at(s: &[char]) -> (r: Option<(Vec<u16>, usize)>)
    ensures
        r is None <==> read_ipv6(s@) is None,
        r matches Some((g, p)) ==> read_ipv6(s@) == Some((g@, p as int)),
        r matches Some((g, p)) ==> g@.len() == 8,
{
    let (head, p, head_v4) = read_groups_at(s, 0, 0, 8);
    if head.len() == 8 {
        return Some((head, p));
    }
    if head_v4 || !(p < s.len() && s[p] == ':') || !(p + 1 < s.len() && s[p + 1] == ':') {
        return None;
    }
    let limit = 8 - (head.len() + 1);
    let (tail, end, _) = read_groups_at(s, p + 2, 0, limit);
    let mut groups: Vec<u16> = Vec::new();
    let mut k: usize = 0;
    while k < head.len()
        invariant
            groups@ == head@.take(k as int),
            k <= head@.len(),
        decreases head@.len() - k,
    {
        groups.push(head[k]);
        proof {
            assert(head@.take(k + 1) =~= head@.take(k as int).push(head@[k as int]));
        }
        k = k + 1;
    }
    let zeros = 8 - head.len() - tail.len();
    let mut z: usize = 0;
    while z < zeros
        invariant
            head@.len() + tail@.len() <= 8,
            zeros == 8 - head@.len() - tail@.len(),
            groups@ == head@ + zero_groups(z as nat),
            z <= zeros,
        decreases zeros - z,
    {
        groups.push(0);
        proof {
            assert(zero_groups((z + 1) as nat) =~= zero_groups(z as nat).push(0u16));
            assert(head@ + zero_groups((z + 1) as nat) =~= (head@ + zero_groups(z as nat)).push(0u16));
        }
        z = z + 1;
    }
    proof {
        assert(head@.take(head@.len() as int) =~= head@);
    }
    let mut t: usize = 0;
    while t < tail.len()
        invariant
            groups@ == head@ + zero_groups(zeros as nat) + tail@.take(t as int),
            t <= tail@.len(),
        decreases tail@.len() - t,
    {
        groups.push(tail[t]);
        proof {
            assert(tail@.take(t + 1) =~= tail@.take(t as int).push(tail@[t as int]));
            assert(head@ + zero_groups(zeros as nat) + tail@.take(t + 1) =~= (head@ + zero_groups(zeros as nat) + tail@.take(t as int)).push(tail@[t as int]));
        }
        t = t + 1;
    }
    proof {
        assert(tail@.take(tail@.len() as int) =~= tail@);
    }
    Some((groups, end))
}

/// Reads the whole of `s` as an IP address, giving its octets.
pub fn parse_ip(s: &[char]) -> (r: Option<Vec<u8>>)
    ensures
        r is None <==> parsed_ip(s@) is None,
        r matches Some(o) ==> parsed_ip(s@) == Some(o@),
        r matches Some(o) ==> o@.len() == 4 || o@.len() == 16,
{
    match read_ipv4_at(s, 0) {
        Some((octets, end)) => {
            if end == s.len() {
                Some(octets)
            } else {
                None
            }
        },
        None => match ipv6_at(s) {
            Some((groups, end)) => {
                if end != s.len() {
                    return None;
                }
                let mut octets: Vec<u8> = Vec::new();
                let mut i: usize = 0;
                while i < 8
                    invariant
                        groups@.len() == 8,
                        i <= 8,
                        octets@ == group_octets(groups@).take(2 * i as int),
                    decreases 8 - i,
                {
                    octets.push((groups[i] / 256) as u8);
                    octets.push((groups[i] % 256) as u8);
                    proof {
                        assert(group_octets(groups@).take(2 * (i + 1)) =~= group_octets(groups@).take(2 * i as int)
                            .push((groups@[i as int] / 256) as u8).push((groups@[i as int] % 256) as u8));
                    }
                    i = i + 1;
                }
                proof {
                    assert(group_octets(groups@).take(16) =~= group_octets(groups@));
                }
                Some(octets)
            },
            None => None,
        },
    }
}

} // verus!
