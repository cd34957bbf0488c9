//! The launcher's sessions whose Host is still serving, as the Controller listener lists them:
//! newest first, and by identifier among sessions started in the same second. Walking the folder
//! and reading each Host's metadata are the caller's.
use vstd::prelude::*;

use crate::console_sessions::ConsoleSessionRecord;
use crate::routes::plan::{chars_less, chars_lt};
use crate::text::chars_of;

verus! {

/// More than anyone keeps open at once; a folder with more is not listed past this.
pub const MAX_LISTED: usize = 256;

/// A launcher session whose Host is serving, with the generation commands to it must present.
#[derive(Debug)]
pub struct LiveConsoleSession {
    pub record: ConsoleSessionRecord,
    pub generation: u64,
}

/// A session is live while its Host, recorded for the same session, says it is serving
/// (starting, ready or stopping), and its endpoint is still there: a Host that exited removes
/// its endpoint and records the exit.
pub fn live_session(
    record: ConsoleSessionRecord,
    host_session_id: &str,
    host_serving: bool,
    generation: u64,
    endpoint_present: bool,
) -> (r: Option<LiveConsoleSession>)
    ensures
        r is Some <==> (host_session_id@ == record.session_id@ && host_serving && endpoint_present),
        r matches Some(live) ==> live.record == record && live.generation == generation,
{
    let same = {
        let a = chars_of(host_session_id);
        let b = chars_of(record.session_id.as_str());
        crate::text::chars_equal(a.as_slice(), b.as_slice())
    };
    if same && host_serving && endpoint_present {
        Some(LiveConsoleSession { record, generation })
    } else {
        None
    }
}

/// `a` is listed before `b`: it started later, or in the same second with an identifier that
/// comes first.
pub open spec fn precedes(a: LiveConsoleSession, b: LiveConsoleSession) -> bool {
    ||| a.record.started_at > b.record.started_at
    ||| (a.record.started_at == b.record.started_at && chars_lt(a.record.session_id@, b.record.session_id@))
}

/// No session is listed after one it precedes.
pub open spec fn newest_first_order(s: Seq<LiveConsoleSession>) -> bool {
    forall|i: int, j: int| 0 <= i < j < s.len() ==> !precedes(#[trigger] s[j], #[trigger] s[i])
}

proof fn lemma_chars_lt_irreflexive(a: Seq<char>)
    ensures
        !chars_lt(a, a),
    decreases a.len(),
{
    if a.len() > 0 {
        lemma_chars_lt_irreflexive(a.drop_first());
    }
}

proof fn lemma_chars_lt_transitive(a: Seq<char>, b: Seq<char>, c: Seq<char>)
    requires
        chars_lt(a, b),
        chars_lt(b, c),
    ensures
        chars_lt(a, c),
    decreases a.len(),
{
    if a.len() > 0 && b.len() > 0 && c.len() > 0 && a[0] == b[0] && b[0] == c[0] {
        lemma_chars_lt_transitive(a.drop_first(), b.drop_first(), c.drop_first());
    }
}

/// Different characters have different code points.
proof fn lemma_char_codes(x: char, y: char)
    ensures
        x != y ==> (x as u32) != (y as u32),
{
}

proof fn lemma_chars_lt_total(a: Seq<char>, b: Seq<char>)
    ensures
        a == b || chars_lt(a, b) || chars_lt(b, a),
    decreases a.len(),
{
    if a.len() > 0 && b.len() > 0 && a[0] == b[0] {
        lemma_chars_lt_total(a.drop_first(), b.drop_first());
        if a.drop_first() == b.drop_first() {
            assert(a =~= seq![a[0]] + a.drop_first());
            assert(b =~= seq![b[0]] + b.drop_first());
        }
    } else if a.len() == 0 && b.len() == 0 {
        assert(a =~= b);
    } else if a.len() > 0 && b.len() > 0 {
        lemma_char_codes(a[0], b[0]);
    }
}

/// `precedes` is a strict order on sessions, total on their keys: of two sessions neither of
/// which precedes the other, one precedes a third exactly when the other does.
proof fn lemma_precedes_order(a: LiveConsoleSession, b: LiveConsoleSession, c: LiveConsoleSession)
    ensures
        !precedes(a, a),
        precedes(a, b) ==> !precedes(b, a),
        precedes(a, b) && precedes(b, c) ==> precedes(a, c),
        precedes(a, c) ==> precedes(a, b) || precedes(b, c),
{
    lemma_chars_lt_irreflexive(a.record.session_id@);
    if precedes(a, b) && precedes(b, a) {
        if a.record.started_at == b.record.started_at {
            lemma_chars_lt_transitive(a.record.session_id@, b.record.session_id@, a.record.session_id@);
        }
    }
    if precedes(a, b) && precedes(b, c) && a.record.started_at == b.record.started_at
        && b.record.started_at == c.record.started_at {
        lemma_chars_lt_transitive(a.record.session_id@, b.record.session_id@, c.record.session_id@);
    }
    if precedes(a, c) && !precedes(a, b) && !precedes(b, c) {
        lemma_chars_lt_total(a.record.session_id@, b.record.session_id@);
        lemma_chars_lt_total(b.record.session_id@, c.record.session_id@);
        if a.record.started_at == c.record.started_at {
            if a.record.session_id@ != b.record.session_id@ {
                lemma_chars_lt_transitive(b.record.session_id@, a.record.session_id@, c.record.session_id@);
            }
            if b.record.session_id@ != c.record.session_id@ && a.record.session_id@ == b.record.session_id@ {
                lemma_chars_lt_transitive(a.record.session_id@, c.record.session_id@, b.record.session_id@);
            }
            if a.record.session_id@ != b.record.session_id@ && b.record.session_id@ != c.record.session_id@ {
                lemma_chars_lt_transitive(c.record.session_id@, b.record.session_id@, a.record.session_id@);
            }
        }
    }
}

fn comes_before(a: &LiveConsoleSession, b: &LiveConsoleSession) -> (r: bool)
    ensures
        r == precedes(*a, *b),
{
    if a.record.started_at != b.record.started_at {
        return a.record.started_at > b.record.started_at;
    }
    let x = chars_of(a.record.session_id.as_str());
    let y = chars_of(b.record.session_id.as_str());
    chars_less(x.as_slice(), y.as_slice())
}

/// The sessions in the order they are listed: newest first, by identifier within a second; the
/// same sessions, none added or lost.
pub fn newest_first(sessions: Vec<LiveConsoleSession>) -> (r: Vec<LiveConsoleSession>)
    ensures
        r@.to_multiset() == sessions@.to_multiset(),
        newest_first_order(r@),
{
    broadcast use vstd::seq_lib::group_to_multiset_ensures, vstd::multiset::group_multiset_axioms;
    let ghost all = sessions@;
    proof {
        assert(Seq::<LiveConsoleSession>::empty().to_multiset().len() == 0);
        assert(Seq::<LiveConsoleSession>::empty().to_multiset() =~= vstd::multiset::Multiset::empty());
        assert(vstd::multiset::Multiset::<LiveConsoleSession>::empty().add(all.to_multiset()) =~= all.to_multiset());
    }
    let mut rest = sessions;
    let mut out: Vec<LiveConsoleSession> = Vec::new();
    while rest.len() > 0
        invariant
            out@.to_multiset().add(rest@.to_multiset()) == all.to_multiset(),
            newest_first_order(out@),
        decreases rest@.len(),
    {
        let ghost before_rest = rest@;
        let last = rest.len() - 1;
        let x = rest.remove(last);
        proof {
            assert(before_rest[last as int] == x);
            assert(rest@ == before_rest.remove(last as int));
        }
        let mut p: usize = 0;
        while p < out.len() && comes_before(&out[p], &x)
            invariant
                p <= out@.len(),
                forall|k: int| 0 <= k < p ==> precedes(#[trigger] out@[k], x),
            decreases out@.len() - p,
        {
            p = p + 1;
        }
        let ghost placed = out@;
        proof {
            assert forall|i: int, j: int| 0 <= i < j < placed.insert(p as int, x).len() implies
                !precedes(#[trigger] placed.insert(p as int, x)[j], #[trigger] placed.insert(p as int, x)[i]) by {
                let s = placed.insert(p as int, x);
                if j < p {
                    assert(s[i] == placed[i] && s[j] == placed[j]);
                } else if j == p {
                    assert(s[i] == placed[i]);
                    lemma_precedes_order(x, placed[i], x);
                } else if i == p {
                    assert(s[j] == placed[j - 1]);
                    if p < placed.len() {
                        assert(!precedes(placed[p as int], x));
                        if j - 1 > p {
                            assert(!precedes(placed[j - 1], placed[p as int]));
                        }
                        lemma_precedes_order(placed[j - 1], placed[p as int], x);
                    }
                } else if i < p {
                    assert(s[i] == placed[i] && s[j] == placed[j - 1]);
                } else {
                    assert(s[i] == placed[i - 1] && s[j] == placed[j - 1]);
                }
            }
        }
        out.insert(p, x);
        proof {
            assert(out@ == placed.insert(p as int, x));
            vstd::seq_lib::to_multiset_insert(placed, p as int, x);
            vstd::seq_lib::to_multiset_remove(before_rest, last as int);
            assert(out@.to_multiset() == placed.to_multiset().insert(x));
            assert(rest@.to_multiset() == before_rest.to_multiset().remove(x));
            vstd::seq_lib::to_multiset_contains(before_rest, x);
            assert(before_rest.contains(x));
            assert(before_rest.to_multiset().count(x) > 0);
            assert(before_rest.to_multiset() =~= rest@.to_multiset().insert(x));
            assert(out@.to_multiset().add(rest@.to_multiset()) =~= placed.to_multiset().add(before_rest.to_multiset()));
        }
    }
    proof {
        assert(rest@.to_multiset().len() == 0);
        assert(rest@.to_multiset() =~= vstd::multiset::Multiset::empty());
        assert(out@.to_multiset().add(vstd::multiset::Multiset::empty()) =~= out@.to_multiset());
    }
    out
}

/// The sessions among `entries` that are live, in the order given.
pub open spec fn live_among(entries: Seq<Option<LiveConsoleSession>>) -> Seq<LiveConsoleSession>
    decreases entries.len(),
{
    if entries.len() == 0 {
        Seq::empty()
    } else {
        let rest = live_among(entries.drop_last());
        match entries.last() {
            Some(session) => rest.push(session),
            None => rest,
        }
    }
}

proof fn lemma_live_among_len(entries: Seq<Option<LiveConsoleSession>>)
    ensures
        live_among(entries).len() <= entries.len(),
    decreases entries.len(),
{
    if entries.len() > 0 {
        lemma_live_among_len(entries.drop_last());
    }
}

/// The live sessions a folder lists, from its entries in the order the folder gave them, each
/// already judged live (`Some`) or not: only the first `MAX_LISTED` entries are looked at, and the
/// live ones among them are listed newest first.
pub fn live_console_sessions(entries: Vec<Option<LiveConsoleSession>>) -> (r: Vec<LiveConsoleSession>)
    ensures
        r@.to_multiset() == live_among(entries@.take(
            if entries@.len() > MAX_LISTED { MAX_LISTED as int } else { entries@.len() as int },
        )).to_multiset(),
        newest_first_order(r@),
        r@.len() <= MAX_LISTED,
{
    let ghost all = entries@;
    let limit: usize = if entries.len() > MAX_LISTED { MAX_LISTED } else { entries.len() };
    let mut rest = entries;
    let mut found: Vec<LiveConsoleSession> = Vec::new();
    let mut k: usize = 0;
    proof {
        assert(all.take(0) =~= Seq::<Option<LiveConsoleSession>>::empty());
    }
    while k < limit
        invariant
            limit <= all.len(),
            limit <= MAX_LISTED,
            k <= limit,
            rest@ == all.skip(k as int),
            found@ == live_among(all.take(k as int)),
        decreases limit - k,
    {
        let entry = rest.remove(0);
        proof {
            assert(entry == all[k as int]);
            assert(rest@ =~= all.skip(k + 1));
            assert(all.take(k + 1).drop_last() =~= all.take(k as int));
            assert(all.take(k + 1).last() == entry);
        }
        match entry {
            Some(session) => found.push(session),
            None => {},
        }
        k = k + 1;
    }
    proof {
        lemma_live_among_len(all.take(limit as int));
    }
    let r = newest_first(found);
    proof {
        assert(r@.to_multiset().len() == r@.len()) by {
            broadcast use vstd::seq_lib::group_to_multiset_ensures;
        }
        assert(found@.to_multiset().len() == found@.len()) by {
            broadcast use vstd::seq_lib::group_to_multiset_ensures;
        }
    }
    r
}

} // verus!
