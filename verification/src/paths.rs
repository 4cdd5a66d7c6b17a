//! Project-relative path handling with `std::path` semantics.
//!
//! Paths are kept as forward-slash strings. Comparisons go through
//! [`components`], which mirrors `Path::components` on Unix: empty
//! segments vanish, `.` survives only as the first component of a
//! relative path, and a leading `/` is the root component.

use vstd::prelude::*;

use crate::text::{
    chars_eq, concat_chars, index_of_char_from, lemma_index_of_char_from, push_all,
    replace_char, replace_char_exec, split_char, split_char_exec, sub_chars, to_chars, views,
};

verus! {

pub open spec fn keep_segment(seg: Seq<char>, idx: int, relative: bool) -> bool {
    seg.len() > 0 && (seg != seq!['.'] || (idx == 0 && relative))
}

pub open spec fn kept_segments(segs: Seq<Seq<char>>, relative: bool) -> Seq<Seq<char>>
    decreases segs.len(),
{
    if segs.len() == 0 {
        Seq::empty()
    } else {
        let rest = kept_segments(segs.drop_last(), relative);
        if keep_segment(segs.last(), segs.len() - 1, relative) {
            rest.push(segs.last())
        } else {
            rest
        }
    }
}

/// `Path::components`, each component as its text (`/` for the root).
pub open spec fn components(s: Seq<char>) -> Seq<Seq<char>> {
    if s.len() > 0 && s[0] == '/' {
        seq![seq!['/']] + kept_segments(split_char(s.drop_first(), '/'), false)
    } else {
        kept_segments(split_char(s, '/'), true)
    }
}

/// `Path::starts_with`: `base`'s components are a prefix of `p`'s.
pub open spec fn path_starts_with(p: Seq<char>, base: Seq<char>) -> bool {
    let cp = components(p);
    let cb = components(base);
    cb.len() <= cp.len() && cp.take(cb.len() as int) == cb
}

/// `Path == Path`: equal component lists.
pub open spec fn path_eq(a: Seq<char>, b: Seq<char>) -> bool {
    components(a) == components(b)
}

/// `PathBuf::join` on Unix: an absolute `rel` replaces `base`; otherwise
/// a `/` separates the two unless `base` is empty or already ends in one.
pub open spec fn path_join(base: Seq<char>, rel: Seq<char>) -> Seq<char> {
    if rel.len() > 0 && rel[0] == '/' {
        rel
    } else if base.len() == 0 || base.last() == '/' {
        base + rel
    } else {
        base + seq!['/'] + rel
    }
}

/// Join a workspace-relative base with a sub-path and normalise to
/// forward slashes.
pub open spec fn join_rel(root: Seq<char>, rel: Seq<char>) -> Seq<char> {
    replace_char(path_join(root, rel), '\\', '/')
}

fn kept_segments_exec(segs: &Vec<Vec<char>>, relative: bool) -> (r: Vec<Vec<char>>)
    ensures
        views(r@) == kept_segments(views(segs@), relative),
{
    let mut dot: Vec<char> = Vec::new();
    dot.push('.');
    assert(dot@ =~= seq!['.']);
    let mut out: Vec<Vec<char>> = Vec::new();
    let mut i: usize = 0;
    assert(views(out@) =~= Seq::<Seq<char>>::empty());
    assert(views(segs@).take(0) =~= Seq::<Seq<char>>::empty());
    while i < segs.len()
        invariant
            i <= segs.len(),
            dot@ == seq!['.'],
            views(out@) == kept_segments(views(segs@).take(i as int), relative),
        decreases segs.len() - i,
    {
        let seg = &segs[i];
        let ghost t = views(segs@).take(i + 1);
        assert(t.drop_last() =~= views(segs@).take(i as int));
        assert(t.last() == seg@);
        let keep = seg.len() > 0 && (!chars_eq(seg.as_slice(), dot.as_slice()) || (i == 0
            && relative));
        if keep {
            let c = sub_chars(seg.as_slice(), 0, seg.len());
            assert(c@ =~= seg@);
            let ghost before = views(out@);
            out.push(c);
            assert(views(out@) =~= before.push(seg@));
        }
        i += 1;
    }
    assert(views(segs@).take(segs.len() as int) =~= views(segs@));
    out
}

/// [`components`] of `s`.
pub fn components_exec(s: &[char]) -> (r: Vec<Vec<char>>)
    ensures
        views(r@) == components(s@),
{
    if s.len() > 0 && s[0] == '/' {
        let rest = sub_chars(s, 1, s.len());
        assert(rest@ =~= s@.drop_first());
        let segs = split_char_exec(rest.as_slice(), '/');
        let kept = kept_segments_exec(&segs, false);
        let mut out: Vec<Vec<char>> = Vec::new();
        let mut slash: Vec<char> = Vec::new();
        slash.push('/');
        out.push(slash);
        let ghost first = views(out@);
        assert(first =~= seq![seq!['/']]);
        let mut i: usize = 0;
        while i < kept.len()
            invariant
                i <= kept.len(),
                views(out@) == first + views(kept@).take(i as int),
            decreases kept.len() - i,
        {
            let c = sub_chars(kept[i].as_slice(), 0, kept[i].len());
            assert(c@ =~= kept@[i as int]@);
            let ghost before = views(out@);
            out.push(c);
            assert(views(out@) =~= before.push(kept@[i as int]@));
            assert(views(out@) =~= first + views(kept@).take(i + 1));
            i += 1;
        }
        assert(views(kept@).take(kept.len() as int) =~= views(kept@));
        out
    } else {
        let segs = split_char_exec(s, '/');
        kept_segments_exec(&segs, true)
    }
}

/// Component-wise equality of two component lists' first `n` entries.
fn comps_prefix_eq(a: &Vec<Vec<char>>, b: &Vec<Vec<char>>, n: usize) -> (r: bool)
    requires
        n <= a.len(),
        n <= b.len(),
    ensures
        r == (views(a@).take(n as int) == views(b@).take(n as int)),
{
    let mut i: usize = 0;
    while i < n
        invariant
            i <= n <= a.len(),
            n <= b.len(),
            forall|k: int| 0 <= k < i ==> a@[k]@ == b@[k]@,
        decreases n - i,
    {
        if !chars_eq(a[i].as_slice(), b[i].as_slice()) {
            assert(views(a@).take(n as int)[i as int] != views(b@).take(n as int)[i as int]);
            return false;
        }
        i += 1;
    }
    assert(views(a@).take(n as int) =~= views(b@).take(n as int));
    true
}

pub fn path_starts_with_exec(p: &[char], base: &[char]) -> (r: bool)
    ensures
        r == path_starts_with(p@, base@),
{
    let cp = components_exec(p);
    let cb = components_exec(base);
    if cb.len() > cp.len() {
        return false;
    }
    let r = comps_prefix_eq(&cp, &cb, cb.len());
    assert(views(cb@).take(cb.len() as int) =~= views(cb@));
    r
}

pub fn path_eq_exec(a: &[char], b: &[char]) -> (r: bool)
    ensures
        r == path_eq(a@, b@),
{
    let ca = components_exec(a);
    let cb = components_exec(b);
    if ca.len() != cb.len() {
        return false;
    }
    let r = comps_prefix_eq(&ca, &cb, ca.len());
    assert(views(ca@).take(ca.len() as int) =~= views(ca@));
    assert(views(cb@).take(cb.len() as int) =~= views(cb@));
    r
}

/// Number of components (`Path::components().count()`).
pub fn component_count(s: &[char]) -> (r: usize)
    ensures
        r == components(s@).len(),
{
    let c = components_exec(s);
    c.len()
}

pub fn path_join_exec(base: &[char], rel: &[char]) -> (r: Vec<char>)
    ensures
        r@ == path_join(base@, rel@),
{
    if rel.len() > 0 && rel[0] == '/' {
        sub_chars(rel, 0, rel.len())
    } else if base.len() == 0 || base[base.len() - 1] == '/' {
        concat_chars(base, rel)
    } else {
        let mut r = sub_chars(base, 0, base.len());
        r.push('/');
        push_all(&mut r, rel);
        r
    }
}

pub fn join_rel_exec(root: &[char], rel: &[char]) -> (r: Vec<char>)
    ensures
        r@ == join_rel(root@, rel@),
{
    let j = path_join_exec(root, rel);
    replace_char_exec(j.as_slice(), '\\', '/')
}

} // verus!
