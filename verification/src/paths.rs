//! Paths as text, the way `std::path` reads a path with `/` separators: a path is its root, if it
//! starts with `/`, and its components, the non-empty pieces between separators other than `.`.
use vstd::prelude::*;

use crate::text::{chars_equal, push_chars, push_str, split_chars, split_on};

verus! {

/// The path starts at the root.
pub open spec fn rooted(s: Seq<char>) -> bool {
    s.len() > 0 && s[0] == '/'
}

/// The pieces that are components: not empty and not `.`.
pub open spec fn kept_pieces(pieces: Seq<Seq<char>>) -> Seq<Seq<char>>
    decreases pieces.len(),
{
    if pieces.len() == 0 {
        pieces
    } else {
        let rest = kept_pieces(pieces.drop_last());
        let p = pieces.last();
        if p.len() == 0 || p == seq!['.'] {
            rest
        } else {
            rest.push(p)
        }
    }
}

/// The components of a path.
pub open spec fn components(s: Seq<char>) -> Seq<Seq<char>> {
    kept_pieces(split_on(s, '/'))
}

/// `Path::starts_with`: `base`'s root and components begin `path`'s.
pub open spec fn path_starts_with(path: Seq<char>, base: Seq<char>) -> bool {
    &&& rooted(path) == rooted(base)
    &&& components(base).len() <= components(path).len()
    &&& components(path).take(components(base).len() as int) == components(base)
}

/// `part` appended to the path `base`, with a `/` between them unless `base` is empty or ends
/// in one: `PathBuf::join` for a relative part.
pub open spec fn join(base: Seq<char>, part: Seq<char>) -> Seq<char> {
    if base.len() == 0 {
        part
    } else if base.last() == '/' {
        base + part
    } else {
        base + seq!['/'] + part
    }
}

/// The extension of a file name: what follows its last `.`, unless that `.` starts the name or
/// there is none.
pub open spec fn extension(name: Seq<char>) -> Option<Seq<char>>
    decreases name.len(),
{
    if name.len() == 0 {
        None
    } else if name.last() == '.' {
        if name.len() == 1 {
            None
        } else {
            Some(Seq::empty())
        }
    } else {
        match extension(name.drop_last()) {
            Some(e) => Some(e.push(name.last())),
            None => None,
        }
    }
}

/// The components of a path, in order.
pub fn components_of(s: &[char]) -> (r: Vec<Vec<char>>)
    ensures
        r@.map_values(|c: Vec<char>| c@) == components(s@),
{
    let pieces = split_chars(s, '/');
    let ghost pv = pieces@.map_values(|p: Vec<char>| p@);
    let mut out: Vec<Vec<char>> = Vec::new();
    let mut i: usize = 0;
    while i < pieces.len()
        invariant
            i <= pieces@.len(),
            pv == pieces@.map_values(|p: Vec<char>| p@),
            out@.map_values(|c: Vec<char>| c@) == kept_pieces(pv.take(i as int)),
        decreases pieces@.len() - i,
    {
        proof {
            assert(pv.take(i + 1).drop_last() =~= pv.take(i as int));
        }
        let n = pieces[i].len();
        let dot = n == 1 && pieces[i][0] == '.';
        proof {
            if n == 1 {
                if pieces[i as int]@[0] == '.' {
                    assert(pv[i as int] =~= seq!['.']);
                } else {
                    assert(pv[i as int][0] != '.');
                }
            }
        }
        if n > 0 && !dot {
            let mut piece: Vec<char> = Vec::new();
            push_chars(&mut piece, pieces[i].as_slice());
            proof {
                assert(out@.push(piece).map_values(|c: Vec<char>| c@) =~= out@.map_values(|c: Vec<char>| c@).push(piece@));
            }
            out.push(piece);
        }
        i = i + 1;
    }
    assert(pv.take(pieces@.len() as int) =~= pv);
    out
}

/// `Path::starts_with` on paths as text.
pub fn starts_with_path(path: &[char], base: &[char]) -> (r: bool)
    ensures
        r == path_starts_with(path@, base@),
{
    let path_rooted = path.len() > 0 && path[0] == '/';
    let base_rooted = base.len() > 0 && base[0] == '/';
    if path_rooted != base_rooted {
        return false;
    }
    let p = components_of(path);
    let b = components_of(base);
    let ghost pv = p@.map_values(|c: Vec<char>| c@);
    let ghost bv = b@.map_values(|c: Vec<char>| c@);
    if b.len() > p.len() {
        return false;
    }
    let mut i: usize = 0;
    while i < b.len()
        invariant
            b@.len() <= p@.len(),
            i <= b@.len(),
            pv == p@.map_values(|c: Vec<char>| c@),
            bv == b@.map_values(|c: Vec<char>| c@),
            pv == components(path@),
            bv == components(base@),
            path@.len() > 0 && path@[0] == '/' <==> base@.len() > 0 && base@[0] == '/',
            pv.take(i as int) == bv.take(i as int),
        decreases b@.len() - i,
    {
        if !chars_equal(p[i].as_slice(), b[i].as_slice()) {
            proof {
                assert(pv[i as int] == p@[i as int]@);
                assert(bv[i as int] == b@[i as int]@);
                assert(pv.take(bv.len() as int)[i as int] != bv[i as int]);
                assert(pv.take(bv.len() as int) != bv);
                assert(!path_starts_with(path@, base@));
            }
            return false;
        }
        proof {
            assert(pv.take(i + 1) =~= pv.take(i as int).push(pv[i as int]));
            assert(bv.take(i + 1) =~= bv.take(i as int).push(bv[i as int]));
        }
        i = i + 1;
    }
    assert(bv.take(bv.len() as int) =~= bv);
    true
}

/// `base` joined with the relative `part`.
pub fn joined(base: &[char], part: &str) -> (r: Vec<char>)
    ensures
        r@ == join(base@, part@),
{
    let mut out: Vec<char> = Vec::new();
    push_chars(&mut out, base);
    if base.len() > 0 && base[base.len() - 1] != '/' {
        out.push('/');
    }
    push_str(&mut out, part);
    proof {
        if base@.len() == 0 {
            assert(out@ =~= part@);
        } else if base@.last() == '/' {
            assert(out@ =~= base@ + part@);
        } else {
            assert(out@ =~= base@ + seq!['/'] + part@);
        }
    }
    out
}

/// The extension of a file name.
pub fn extension_of(name: &[char]) -> (r: Option<Vec<char>>)
    ensures
        r matches Some(e) ==> extension(name@) == Some(e@),
        r is None ==> extension(name@) is None,
{
    let mut i: usize = name.len();
    while i > 0 && name[i - 1] != '.'
        invariant
            i <= name@.len(),
            forall|k: int| i <= k < name@.len() ==> name@[k] != '.',
        decreases i,
    {
        i = i - 1;
    }
    proof {
        lemma_extension_after(name@, i as int);
    }
    if i == 0 || i == 1 {
        None
    } else {
        let mut out: Vec<char> = Vec::new();
        push_chars(&mut out, vstd::slice::slice_subrange(name, i, name.len()));
        Some(out)
    }
}

/// With no `.` after `i`, the extension is decided by the `.` just before `i`, if any.
proof fn lemma_extension_after(name: Seq<char>, i: int)
    requires
        0 <= i <= name.len(),
        forall|k: int| i <= k < name.len() ==> name[k] != '.',
        i > 0 ==> name[i - 1] == '.',
    ensures
        i <= 1 ==> extension(name) is None,
        i > 1 ==> extension(name) == Some(name.subrange(i, name.len() as int)),
    decreases name.len(),
{
    if name.len() > i {
        lemma_extension_after(name.drop_last(), i);
        if i > 1 {
            assert(name.drop_last().subrange(i, name.len() - 1).push(name.last())
                =~= name.subrange(i, name.len() as int));
        }
    } else if i == name.len() && i > 1 {
        assert(name.subrange(i, name.len() as int) =~= Seq::<char>::empty());
    } else if i == 0 {
        assert(name.len() == 0);
    }
}


/// Where the piece of `s` ending at `end` starts: just after the last `/` before `end`.
pub open spec fn piece_start(s: Seq<char>, end: int) -> int
    decreases end,
{
    if end <= 0 {
        0
    } else if s[end - 1] == '/' {
        end
    } else {
        piece_start(s, end - 1)
    }
}

/// Where the piece ending at `end` starts.
pub fn piece_start_of(s: &[char], end: usize) -> (r: usize)
    requires
        end <= s@.len(),
    ensures
        r == piece_start(s@, end as int),
        r <= end,
{
    let mut i: usize = end;
    while i > 0 && s[i - 1] != '/'
        invariant
            i <= end <= s@.len(),
            piece_start(s@, end as int) == piece_start(s@, i as int),
        decreases i,
    {
        i = i - 1;
    }
    i
}

} // verus!
