//! Directory-path navigation.
//!
//! A path is a byte string: either empty (the root) or a run of
//! `/`-terminated segments, as in `a/b/`. Entering a directory appends one
//! segment, going back drops the last one, and the breadcrumb view splits
//! the path into its non-empty segments.

use vstd::prelude::*;

verus! {

/// The byte `/`, the one path separator.
pub const SLASH: u8 = 47;

/// A path is canonical when it is empty (the root) or ends in `/`.
pub open spec fn is_canonical_path(p: Seq<u8>) -> bool {
    p.len() == 0 || p.last() == SLASH
}

/// The path after entering the directory `name` from `p`: `name` is
/// appended with exactly one `/` before it (when `p` is non-empty) and
/// one after it.
pub open spec fn spec_enter(p: Seq<u8>, name: Seq<u8>) -> Seq<u8> {
    let base = if p.len() > 0 && p.last() != SLASH {
        p.push(SLASH)
    } else {
        p
    };
    let joined = base + name;
    if joined.len() > 0 && joined.last() != SLASH {
        joined.push(SLASH)
    } else {
        joined
    }
}

/// The index of the last `/` in `p`, or `-1` when `p` has none.
pub open spec fn spec_rfind_slash(p: Seq<u8>) -> int
    decreases p.len(),
{
    if p.len() == 0 {
        -1
    } else if p.last() == SLASH {
        p.len() - 1
    } else {
        spec_rfind_slash(p.drop_last())
    }
}

/// The path one level up from `p`: a trailing `/` is dropped, then the
/// path is cut just after the last remaining `/`; with no `/` left the
/// result is the root. The root itself stays the root.
pub open spec fn spec_go_back(p: Seq<u8>) -> Seq<u8> {
    let trimmed = if p.len() > 0 && p.last() == SLASH {
        p.drop_last()
    } else {
        p
    };
    let j = spec_rfind_slash(trimmed);
    if j >= 0 {
        trimmed.take(j + 1)
    } else {
        Seq::empty()
    }
}

/// The index of the first `/` in `p`, or `p.len()` when `p` has none.
pub open spec fn spec_find_slash(p: Seq<u8>) -> int
    decreases p.len(),
{
    if p.len() == 0 {
        0
    } else if p.first() == SLASH {
        0
    } else {
        1 + spec_find_slash(p.skip(1))
    }
}

pub proof fn lemma_find_slash_bounds(p: Seq<u8>)
    ensures
        0 <= spec_find_slash(p) <= p.len(),
        spec_find_slash(p) < p.len() ==> p[spec_find_slash(p)] == SLASH,
        forall|k: int| 0 <= k < spec_find_slash(p) ==> p[k] != SLASH,
    decreases p.len(),
{
    if p.len() == 0 {
    } else if p.first() == SLASH {
    } else {
        lemma_find_slash_bounds(p.skip(1));
        assert forall|k: int| 0 <= k < spec_find_slash(p) implies p[k] != SLASH by {
            if k >= 1 {
                assert(p[k] == p.skip(1)[k - 1]);
            }
        }
    }
}

/// The non-empty segments of `p`, in order: `p` split on `/` with empty
/// pieces discarded.
pub open spec fn spec_segments(p: Seq<u8>) -> Seq<Seq<u8>>
    decreases p.len(),
    via spec_segments_decreases
{
    if p.len() == 0 {
        Seq::empty()
    } else {
        let j = spec_find_slash(p);
        let head = p.take(j);
        let tail = if j < p.len() {
            p.skip(j + 1)
        } else {
            Seq::empty()
        };
        let rest = spec_segments(tail);
        if head.len() > 0 {
            seq![head] + rest
        } else {
            rest
        }
    }
}

#[via_fn]
proof fn spec_segments_decreases(p: Seq<u8>) {
    if p.len() > 0 {
        lemma_find_slash_bounds(p);
    }
}

/// Entering a non-empty directory name always yields a canonical,
/// non-empty path.
pub proof fn lemma_enter_canonical(p: Seq<u8>, name: Seq<u8>)
    requires
        name.len() > 0,
    ensures
        spec_enter(p, name).len() > 0,
        is_canonical_path(spec_enter(p, name)),
{
}

/// Going back always yields a canonical path.
pub proof fn lemma_go_back_canonical(p: Seq<u8>)
    ensures
        is_canonical_path(spec_go_back(p)),
{
    let trimmed = if p.len() > 0 && p.last() == SLASH {
        p.drop_last()
    } else {
        p
    };
    lemma_rfind_slash_props(trimmed);
}

pub proof fn lemma_rfind_slash_props(p: Seq<u8>)
    ensures
        -1 <= spec_rfind_slash(p) < p.len(),
        spec_rfind_slash(p) >= 0 ==> p[spec_rfind_slash(p)] == SLASH,
        forall|k: int| spec_rfind_slash(p) < k < p.len() ==> p[k] != SLASH,
    decreases p.len(),
{
    if p.len() == 0 {
    } else if p.last() == SLASH {
    } else {
        lemma_rfind_slash_props(p.drop_last());
        assert forall|k: int| spec_rfind_slash(p) < k < p.len() implies p[k] != SLASH by {
            if k < p.len() - 1 {
                assert(p[k] == p.drop_last()[k]);
            }
        }
    }
}

/// Enter a directory: append `name` to `path` with exactly one `/`
/// separator before and after.
pub fn enter_directory(path: &Vec<u8>, name: &Vec<u8>) -> (r: Vec<u8>)
    requires
        name@.len() > 0,
    ensures
        r@ == spec_enter(path@, name@),
{
    let mut r: Vec<u8> = path.clone();
    if r.len() > 0 && r[r.len() - 1] != SLASH {
        r.push(SLASH);
    }
    let ghost base = r@;
    let mut k: usize = 0;
    while k < name.len()
        invariant
            k <= name.len(),
            r@ == base + name@.take(k as int),
        decreases name.len() - k,
    {
        r.push(name[k]);
        k = k + 1;
        proof {
            assert(base + name@.take(k - 1 as int) + seq![name@[k - 1]] =~= base + name@.take(
                k as int,
            ));
        }
    }
    proof {
        assert(name@.take(name@.len() as int) =~= name@);
    }
    if r.len() > 0 && r[r.len() - 1] != SLASH {
        r.push(SLASH);
    }
    r
}

/// Copy `v[a..b]` into a fresh vector.
fn copy_range(v: &Vec<u8>, a: usize, b: usize) -> (r: Vec<u8>)
    requires
        a <= b <= v.len(),
    ensures
        r@ == v@.subrange(a as int, b as int),
{
    let mut r: Vec<u8> = Vec::new();
    let mut k: usize = a;
    while k < b
        invariant
            a <= k <= b <= v.len(),
            r@ == v@.subrange(a as int, k as int),
        decreases b - k,
    {
        r.push(v[k]);
        k = k + 1;
        proof {
            assert(v@.subrange(a as int, k - 1 as int) + seq![v@[k - 1 as int]] =~= v@.subrange(
                a as int,
                k as int,
            ));
        }
    }
    r
}

/// Go one directory up: drop a trailing `/`, then cut just after the last
/// `/` that remains; with none left the result is the root.
pub fn go_back(path: &Vec<u8>) -> (r: Vec<u8>)
    ensures
        r@ == spec_go_back(path@),
{
    let mut end: usize = path.len();
    if end > 0 && path[end - 1] == SLASH {
        end = end - 1;
    }
    let ghost trimmed = path@.take(end as int);
    proof {
        if path@.len() > 0 && path@.last() == SLASH {
            assert(trimmed =~= path@.drop_last());
        } else {
            assert(trimmed =~= path@);
        }
    }
    let mut j: usize = end;
    while j > 0 && path[j - 1] != SLASH
        invariant
            j <= end <= path.len(),
            spec_rfind_slash(trimmed) == spec_rfind_slash(path@.take(j as int)),
        decreases j,
    {
        proof {
            let q = path@.take(j as int);
            assert(q.last() == path@[j - 1]);
            assert(q.drop_last() =~= path@.take(j - 1 as int));
        }
        j = j - 1;
    }
    if j == 0 {
        proof {
            assert(path@.take(0) =~= Seq::<u8>::empty());
        }
        Vec::new()
    } else {
        proof {
            let q = path@.take(j as int);
            assert(q.last() == path@[j - 1]);
            assert(spec_rfind_slash(trimmed) == j - 1);
            assert(trimmed.take(j as int) =~= path@.take(j as int));
        }
        copy_range(path, 0, j)
    }
}

proof fn lemma_find_slash_char(p: Seq<u8>, m: int)
    requires
        0 <= m <= p.len(),
        forall|k: int| 0 <= k < m ==> p[k] != SLASH,
        m < p.len() ==> p[m] == SLASH,
    ensures
        spec_find_slash(p) == m,
    decreases p.len(),
{
    if p.len() == 0 {
    } else if p.first() == SLASH {
        assert(m == 0);
    } else {
        assert forall|k: int| 0 <= k < m - 1 implies p.skip(1)[k] != SLASH by {
            assert(p.skip(1)[k] == p[k + 1]);
        }
        if m - 1 < p.skip(1).len() {
            assert(p.skip(1)[m - 1] == p[m]);
        }
        lemma_find_slash_char(p.skip(1), m - 1);
    }
}

/// The breadcrumb view of `path`: its non-empty segments, left to right.
pub fn breadcrumb_segments(path: &Vec<u8>) -> (r: Vec<Vec<u8>>)
    ensures
        r.deep_view() == spec_segments(path@),
{
    let r = segments_from(path, 0);
    proof {
        assert(path@.skip(0) =~= path@);
    }
    r
}

fn segments_from(v: &Vec<u8>, i: usize) -> (r: Vec<Vec<u8>>)
    requires
        i <= v.len(),
    ensures
        r.deep_view() == spec_segments(v@.skip(i as int)),
    decreases v.len() - i,
{
    let ghost p = v@.skip(i as int);
    if i >= v.len() {
        let r: Vec<Vec<u8>> = Vec::new();
        proof {
            assert(r.deep_view() =~= Seq::<Seq<u8>>::empty());
        }
        return r;
    }
    let mut j: usize = i;
    while j < v.len() && v[j] != SLASH
        invariant
            i <= j <= v.len(),
            forall|k: int| i <= k < j ==> v@[k] != SLASH,
        decreases v.len() - j,
    {
        j = j + 1;
    }
    proof {
        assert forall|k: int| 0 <= k < j - i implies p[k] != SLASH by {
            assert(p[k] == v@[i + k]);
        }
        if j < v.len() {
            assert(p[j - i] == v@[j as int]);
        }
        lemma_find_slash_char(p, j - i);
        assert(p.take(j - i) =~= v@.subrange(i as int, j as int));
    }
    let head = copy_range(v, i, j);
    let next: usize = if j < v.len() {
        j + 1
    } else {
        j
    };
    let rest = segments_from(v, next);
    let ghost rest_deep = rest.deep_view();
    proof {
        if j < v.len() {
            assert(p.skip((j - i) + 1) =~= v@.skip(next as int));
        } else {
            assert(v@.skip(next as int) =~= Seq::<u8>::empty());
        }
    }
    if head.len() > 0 {
        let mut out = rest;
        out.insert(0, head);
        proof {
            assert(head.deep_view() =~= head@);
            assert(out.deep_view() =~~= seq![v@.subrange(i as int, j as int)] + rest_deep);
        }
        out
    } else {
        rest
    }
}

/// Appending bytes that hold no `/` does not change where the last `/`
/// stands.
pub proof fn lemma_rfind_append_noslash(a: Seq<u8>, b: Seq<u8>)
    requires
        forall|k: int| 0 <= k < b.len() ==> b[k] != SLASH,
    ensures
        spec_rfind_slash(a + b) == spec_rfind_slash(a),
    decreases b.len(),
{
    if b.len() == 0 {
        assert(a + b =~= a);
    } else {
        assert((a + b).last() == b.last());
        assert((a + b).drop_last() =~= a + b.drop_last());
        lemma_rfind_append_noslash(a, b.drop_last());
    }
}

/// Entering a directory and going back returns to the starting path, for
/// every canonical path and every non-empty name free of `/`.
pub proof fn lemma_enter_then_back(path: Seq<u8>, name: Seq<u8>)
    requires
        is_canonical_path(path),
        name.len() > 0,
        forall|k: int| 0 <= k < name.len() ==> name[k] != SLASH,
    ensures
        spec_go_back(spec_enter(path, name)) == path,
{
    let joined = path + name;
    assert(joined.last() == name.last());
    let e = spec_enter(path, name);
    assert(e == joined.push(SLASH));
    assert(e.last() == SLASH);
    assert(e.drop_last() =~= joined);
    lemma_rfind_append_noslash(path, name);
    if path.len() == 0 {
        assert(spec_rfind_slash(path) == -1);
        assert(spec_go_back(e) =~= path);
    } else {
        assert(path.last() == SLASH);
        assert(spec_rfind_slash(path) == path.len() - 1);
        assert(joined.take(path.len() as int) =~= path);
    }
}

/// Going back at the root stays at the root, however often it is done.
pub proof fn lemma_go_back_at_root()
    ensures
        spec_go_back(Seq::<u8>::empty()) == Seq::<u8>::empty(),
        spec_go_back(spec_go_back(Seq::<u8>::empty())) == Seq::<u8>::empty(),
{
}

/// No two `/` stand side by side in `p`.
pub open spec fn no_double_slash(p: Seq<u8>) -> bool {
    forall|k: int| 0 <= k && k + 1 < p.len() ==> !(#[trigger] p[k] == SLASH && p[k + 1] == SLASH)
}

/// Entering a directory never creates a double slash: with no double
/// slash in the path and none possible from a `/`-free name, the result
/// has none either.
pub proof fn lemma_enter_no_double_slash(path: Seq<u8>, name: Seq<u8>)
    requires
        no_double_slash(path),
        name.len() > 0,
        forall|k: int| 0 <= k < name.len() ==> name[k] != SLASH,
    ensures
        no_double_slash(spec_enter(path, name)),
{
    let base = if path.len() > 0 && path.last() != SLASH {
        path.push(SLASH)
    } else {
        path
    };
    assert(no_double_slash(base)) by {
        assert forall|k: int| 0 <= k && k + 1 < base.len() implies !(#[trigger] base[k] == SLASH && base[k + 1] == SLASH) by {
            if k + 1 < path.len() {
                assert(base[k] == path[k] && base[k + 1] == path[k + 1]);
            } else if path.len() > 0 && path.last() != SLASH {
                assert(base[k] == path[path.len() - 1]);
            }
        }
    }
    let joined = base + name;
    assert(no_double_slash(joined)) by {
        assert forall|k: int| 0 <= k && k + 1 < joined.len() implies !(#[trigger] joined[k] == SLASH && joined[k + 1] == SLASH) by {
            if k + 1 < base.len() {
            } else if k >= base.len() {
                assert(joined[k + 1] == name[k + 1 - base.len()]);
            } else {
                assert(joined[k + 1] == name[0]);
            }
        }
    }
    let e = spec_enter(path, name);
    if joined.len() > 0 && joined.last() != SLASH {
        assert(e == joined.push(SLASH));
        assert forall|k: int| 0 <= k && k + 1 < e.len() implies !(#[trigger] e[k] == SLASH && e[k + 1] == SLASH) by {
            if k + 1 < joined.len() {
            } else {
                assert(e[k] == joined[joined.len() - 1]);
            }
        }
    }
}

} // verus!
