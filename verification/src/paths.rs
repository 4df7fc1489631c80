//! Paths and their extensions.
//!
//! A path is a string; the file-name part is everything after the last `/`.
//! The extension is the part of the file name after its last dot, where a
//! dot that starts the file name does not count.  Replacing the extension
//! keeps everything up to that dot and appends the new extension.

use vstd::prelude::*;

verus! {

/// Index of the first character of the file-name part: one past the last
/// separator, or `0` when the path holds none.
pub open spec fn name_start(p: Seq<char>) -> int
    decreases p.len(),
{
    if p.len() == 0 {
        0
    } else if p.last() == '/' {
        p.len() as int
    } else {
        name_start(p.drop_last())
    }
}

/// Index of the dot that begins the extension, or `-1` when the file name
/// has no extension.  The dot must lie strictly inside the file name.
pub open spec fn ext_dot(p: Seq<char>) -> int
    decreases p.len(),
{
    if p.len() == 0 {
        -1
    } else if p.last() == '/' {
        -1
    } else if p.last() == '.' && p.len() - 1 > name_start(p) {
        p.len() - 1
    } else {
        ext_dot(p.drop_last())
    }
}

pub open spec fn has_file_name(p: Seq<char>) -> bool {
    name_start(p) < p.len()
}

pub open spec fn has_ext(p: Seq<char>) -> bool {
    ext_dot(p) >= 0
}

/// The extension, without its dot.  Meaningful when `has_ext(p)`.
pub open spec fn ext_of(p: Seq<char>) -> Seq<char> {
    p.subrange(ext_dot(p) + 1, p.len() as int)
}

/// Everything before the extension's dot; the whole path when there is no
/// extension.
pub open spec fn stem_of(p: Seq<char>) -> Seq<char> {
    if has_ext(p) {
        p.subrange(0, ext_dot(p))
    } else {
        p
    }
}

/// An extension one may retype to: non-empty, no separator, no dot.
pub open spec fn valid_ext(e: Seq<char>) -> bool {
    e.len() > 0 && forall|i: int| 0 <= i < e.len() ==> e[i] != '/' && e[i] != '.'
}

/// The path with its extension replaced by `e`.  A path without a file
/// name is left as it is.
pub open spec fn with_ext(p: Seq<char>, e: Seq<char>) -> Seq<char> {
    if !has_file_name(p) {
        p
    } else {
        stem_of(p) + seq!['.'] + e
    }
}

/// Retyping `p` to `e` performs no file-system action: either the path has
/// no file name, or its extension already equals the target.
pub open spec fn retype_noop(p: Seq<char>, e: Seq<char>) -> bool {
    !has_file_name(p) || (has_ext(p) && ext_of(p) == e)
}

pub proof fn lemma_name_start_bounds(p: Seq<char>)
    ensures
        0 <= name_start(p) <= p.len(),
    decreases p.len(),
{
    if p.len() == 0 {
    } else if p.last() == '/' {
    } else {
        lemma_name_start_bounds(p.drop_last());
    }
}

/// No separator stands at or after `name_start`.
pub proof fn lemma_name_start_no_sep(p: Seq<char>)
    ensures
        forall|i: int| name_start(p) <= i < p.len() ==> p[i] != '/',
    decreases p.len(),
{
    if p.len() == 0 {
    } else if p.last() == '/' {
        lemma_name_start_bounds(p);
    } else {
        lemma_name_start_no_sep(p.drop_last());
        lemma_name_start_bounds(p.drop_last());
        assert forall|i: int| name_start(p) <= i < p.len() implies p[i] != '/' by {
            if i < p.len() - 1 {
                assert(p.drop_last()[i] == p[i]);
            }
        }
    }
}

/// `name_start` covers the whole path exactly when the path is empty or
/// ends with a separator.
pub proof fn lemma_name_start_full(p: Seq<char>)
    ensures
        (name_start(p) == p.len()) <==> (p.len() == 0 || p.last() == '/'),
{
    if p.len() == 0 {
    } else if p.last() == '/' {
    } else {
        lemma_name_start_bounds(p.drop_last());
    }
}

/// Appending separator-free characters does not move `name_start`.
pub proof fn lemma_name_start_append(p: Seq<char>, q: Seq<char>)
    requires
        forall|i: int| 0 <= i < q.len() ==> q[i] != '/',
    ensures
        name_start(p + q) == name_start(p),
    decreases q.len(),
{
    if q.len() == 0 {
        assert(p + q =~= p);
    } else {
        assert((p + q).last() == q.last());
        assert((p + q).drop_last() =~= p + q.drop_last());
        lemma_name_start_append(p, q.drop_last());
    }
}

pub proof fn lemma_ext_dot_bounds(p: Seq<char>)
    ensures
        ext_dot(p) == -1 || (name_start(p) < ext_dot(p) < p.len() && p[ext_dot(p)] == '.'),
    decreases p.len(),
{
    if p.len() == 0 {
    } else if p.last() == '/' {
    } else if p.last() == '.' && p.len() - 1 > name_start(p) {
    } else {
        lemma_ext_dot_bounds(p.drop_last());
        lemma_name_start_bounds(p.drop_last());
        assert(name_start(p) == name_start(p.drop_last()));
        if ext_dot(p.drop_last()) >= 0 {
            assert(p.drop_last()[ext_dot(p)] == p[ext_dot(p)]);
        }
    }
}

/// Where the extension's dot lands after `a + "." + e`.
pub proof fn lemma_ext_dot_concat(a: Seq<char>, e: Seq<char>)
    requires
        name_start(a) < a.len(),
        forall|i: int| 0 <= i < e.len() ==> e[i] != '/' && e[i] != '.',
    ensures
        ext_dot(a + seq!['.'] + e) == a.len(),
    decreases e.len(),
{
    let w = a + seq!['.'] + e;
    if e.len() == 0 {
        assert(w =~= a + seq!['.']);
        assert(w.last() == '.');
        assert(w.drop_last() =~= a);
        lemma_name_start_append(a, seq!['.']);
        assert(name_start(w) == name_start(a));
        assert(w.len() - 1 == a.len() > name_start(w));
    } else {
        assert(w.last() == e.last());
        assert(w.last() != '/' && w.last() != '.');
        assert(w.drop_last() =~= a + seq!['.'] + e.drop_last());
        lemma_ext_dot_concat(a, e.drop_last());
    }
}

/// A no-op retype leaves the path exactly as it was.
pub proof fn lemma_noop_fixpoint(p: Seq<char>, e: Seq<char>)
    requires
        retype_noop(p, e),
    ensures
        with_ext(p, e) == p,
{
    if has_file_name(p) {
        lemma_ext_dot_bounds(p);
        assert(stem_of(p) + seq!['.'] + ext_of(p) =~= p);
    }
}

/// What the retyped path looks like: same stem, same file-name start, and
/// exactly the requested extension.
pub proof fn lemma_with_ext_spec(p: Seq<char>, e: Seq<char>)
    requires
        valid_ext(e),
        has_file_name(p),
    ensures
        has_file_name(with_ext(p, e)),
        has_ext(with_ext(p, e)),
        ext_dot(with_ext(p, e)) == stem_of(p).len(),
        ext_of(with_ext(p, e)) == e,
        stem_of(with_ext(p, e)) == stem_of(p),
        name_start(with_ext(p, e)) == name_start(p),
{
    let s = stem_of(p);
    let w = s + seq!['.'] + e;
    lemma_ext_dot_bounds(p);
    lemma_name_start_bounds(p);
    lemma_name_start_no_sep(p);
    if has_ext(p) {
        assert(s.len() == ext_dot(p) > name_start(p));
        let rest = p.subrange(ext_dot(p), p.len() as int);
        assert(p =~= s + rest);
        assert forall|i: int| 0 <= i < rest.len() implies rest[i] != '/' by {
            assert(rest[i] == p[ext_dot(p) + i]);
        }
        lemma_name_start_append(s, rest);
    } else {
        assert(s =~= p);
    }
    assert(name_start(s) == name_start(p));
    assert(name_start(s) < s.len());
    let tail = seq!['.'] + e;
    assert forall|i: int| 0 <= i < tail.len() implies tail[i] != '/' by {}
    lemma_name_start_append(s, tail);
    assert(w =~= s + tail);
    assert(name_start(w) == name_start(s));
    assert(has_file_name(w));
    lemma_ext_dot_concat(s, e);
    assert(ext_dot(w) == s.len());
    assert(ext_of(w) =~= e);
    assert(stem_of(w) =~= s);
}

/// Retyping is idempotent: a second pass with the same extension is a
/// no-op and returns the same path.
pub proof fn lemma_retype_idempotent(p: Seq<char>, e: Seq<char>)
    requires
        valid_ext(e),
    ensures
        retype_noop(with_ext(p, e), e),
        with_ext(with_ext(p, e), e) == with_ext(p, e),
{
    if has_file_name(p) {
        lemma_with_ext_spec(p, e);
        lemma_noop_fixpoint(with_ext(p, e), e);
    }
}

/// A retype that is not a no-op truly moves the path.
pub proof fn lemma_retype_changes(p: Seq<char>, e: Seq<char>)
    requires
        valid_ext(e),
        !retype_noop(p, e),
    ensures
        with_ext(p, e) != p,
{
    lemma_with_ext_spec(p, e);
    if with_ext(p, e) == p {
        assert(has_ext(p) && ext_of(p) == e);
    }
}

/// Finds the extension's dot, scanning the file name from the end.
pub fn find_ext_dot(p: &str) -> (r: Option<usize>)
    ensures
        match r {
            Some(d) => ext_dot(p@) == d as int,
            None => ext_dot(p@) == -1,
        },
{
    let n = p.unicode_len();
    let mut i = n;
    proof {
        assert(p@.subrange(0, n as int) =~= p@);
    }
    while i > 0
        invariant
            i <= n,
            n == p@.len(),
            ext_dot(p@) == ext_dot(p@.subrange(0, i as int)),
        decreases i,
    {
        let pre = Ghost(p@.subrange(0, i as int));
        proof {
            assert(pre@.drop_last() =~= p@.subrange(0, i - 1));
            assert(pre@.last() == p@[i - 1]);
        }
        let c = p.get_char(i - 1);
        if c == '/' {
            return None;
        }
        if c == '.' {
            proof {
                lemma_name_start_full(p@.subrange(0, i - 1));
                lemma_name_start_bounds(p@.subrange(0, i - 1));
                assert(name_start(pre@) == name_start(pre@.drop_last()));
            }
            if i - 1 == 0 {
                proof {
                    assert(name_start(pre@) == 0 >= i - 1);
                }
            } else if p.get_char(i - 2) == '/' {
                proof {
                    assert(p@.subrange(0, i - 1).last() == p@[i - 2]);
                    assert(name_start(p@.subrange(0, i - 1)) == i - 1);
                }
            } else {
                proof {
                    assert(p@.subrange(0, i - 1).last() == p@[i - 2]);
                    assert(name_start(p@.subrange(0, i - 1)) < i - 1);
                    assert(ext_dot(pre@) == i - 1);
                }
                return Some(i - 1);
            }
        }
        i = i - 1;
    }
    proof {
        assert(p@.subrange(0, 0) =~= Seq::<char>::empty());
    }
    None
}

/// The path with its extension replaced, as `with_ext` describes.
pub fn with_extension(p: &str, e: &str) -> (r: String)
    ensures
        r@ == with_ext(p@, e@),
{
    let n = p.unicode_len();
    if n == 0 {
        return p.to_owned();
    }
    if p.get_char(n - 1) == '/' {
        proof {
            lemma_name_start_full(p@);
        }
        return p.to_owned();
    }
    proof {
        lemma_name_start_full(p@);
        lemma_name_start_bounds(p@);
    }
    let stem: &str = match find_ext_dot(p) {
        Some(d) => {
            proof {
                lemma_ext_dot_bounds(p@);
            }
            p.substring_char(0, d)
        },
        None => p,
    };
    let mut r = stem.to_owned();
    r.append(".");
    r.append(e);
    proof {
        reveal_strlit(".");
        assert("."@ =~= seq!['.']);
        assert(r@ =~= stem_of(p@) + seq!['.'] + e@);
    }
    r
}

/// Whether retyping `p` to `e` would be a no-op.
pub fn extension_matches(p: &str, e: &str) -> (b: bool)
    ensures
        b == retype_noop(p@, e@),
{
    let n = p.unicode_len();
    if n == 0 {
        return true;
    }
    if p.get_char(n - 1) == '/' {
        proof {
            lemma_name_start_full(p@);
        }
        return true;
    }
    proof {
        lemma_name_start_full(p@);
        lemma_name_start_bounds(p@);
    }
    match find_ext_dot(p) {
        Some(d) => {
            proof {
                lemma_ext_dot_bounds(p@);
            }
            let cur = p.substring_char(d + 1, n).to_owned();
            let target = e.to_owned();
            let b = cur == target;
            proof {
                assert(cur@ =~= ext_of(p@));
            }
            b
        },
        None => false,
    }
}

} // verus!
