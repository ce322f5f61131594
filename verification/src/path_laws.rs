//! Laws of the root-relative path: what holds of every result, and how results
//! for different shapes of the same filename relate.

use vstd::prelude::*;
use crate::relpath::{
    components, drop_noise, effective_root, is_abs_path, is_noise, join_slash, lead_component,
    parent_seg, rel_pieces, rel_posix_spec, resolve_dots, split_slash, strip_components, to_posix,
    trim_slashes,
};

verus! {

// ------------------------------------------------------------ splitting lemmas

proof fn lemma_split_len(s: Seq<char>)
    ensures
        split_slash(s).len() >= 1,
    decreases s.len(),
{
    if s.len() > 0 {
        lemma_split_len(s.drop_last());
    }
}

/// Splitting at a slash splits the two sides independently.
proof fn lemma_split_concat(x: Seq<char>, y: Seq<char>)
    ensures
        split_slash(x + seq!['/'] + y) == split_slash(x) + split_slash(y),
    decreases y.len(),
{
    let z = x + seq!['/'] + y;
    if y.len() == 0 {
        assert(z =~= x.push('/'));
        assert(z.drop_last() =~= x);
        assert(split_slash(y) =~= seq![Seq::<char>::empty()]);
        assert(split_slash(z) =~= split_slash(x) + split_slash(y));
    } else {
        let y1 = y.drop_last();
        assert(z.drop_last() =~= x + seq!['/'] + y1);
        assert(z.last() == y.last());
        lemma_split_concat(x, y1);
        lemma_split_len(y1);
        lemma_split_len(x);
        if y.last() == '/' {
            assert(split_slash(z) =~= split_slash(x) + split_slash(y));
        } else {
            assert(split_slash(z) =~= split_slash(x) + split_slash(y));
        }
    }
}

/// A string without slashes is a single piece.
proof fn lemma_split_no_slash(y: Seq<char>)
    requires
        forall|i: int| 0 <= i < y.len() ==> y[i] != '/',
    ensures
        split_slash(y) == seq![y],
    decreases y.len(),
{
    if y.len() == 0 {
        assert(y =~= Seq::<char>::empty());
        assert(split_slash(y) =~= seq![y]);
    } else {
        let y1 = y.drop_last();
        lemma_split_no_slash(y1);
        assert(y.last() != '/');
        assert(y1.push(y.last()) =~= y);
        assert(split_slash(y1).last() == y1);
        assert(split_slash(y) =~= seq![y]);
    }
}

/// A string of slashes only splits into empty pieces.
proof fn lemma_split_all_slashes(y: Seq<char>)
    requires
        forall|i: int| 0 <= i < y.len() ==> y[i] == '/',
    ensures
        drop_noise(split_slash(y)) == Seq::<Seq<char>>::empty(),
    decreases y.len(),
{
    if y.len() == 0 {
        assert(drop_noise(seq![Seq::<char>::empty()]).len() == 0) by {
            let ps = seq![Seq::<char>::empty()];
            assert(ps.drop_last() =~= Seq::<Seq<char>>::empty());
            assert(drop_noise(ps.drop_last()).len() == 0);
            assert(is_noise(ps.last()));
        }
    } else {
        let y1 = y.drop_last();
        lemma_split_all_slashes(y1);
        let ps = split_slash(y);
        assert(ps == split_slash(y1).push(Seq::<char>::empty()));
        assert(ps.drop_last() =~= split_slash(y1));
    }
}

/// Dropping noise commutes with concatenation.
proof fn lemma_drop_noise_concat(a: Seq<Seq<char>>, b: Seq<Seq<char>>)
    ensures
        drop_noise(a + b) == drop_noise(a) + drop_noise(b),
    decreases b.len(),
{
    if b.len() == 0 {
        assert(a + b =~= a);
        assert(drop_noise(b) =~= b);
        assert(drop_noise(a) + drop_noise(b) =~= drop_noise(a));
    } else {
        let b1 = b.drop_last();
        lemma_drop_noise_concat(a, b1);
        assert((a + b).drop_last() =~= a + b1);
        assert((a + b).last() == b.last());
        assert(drop_noise(a + b) =~= drop_noise(a) + drop_noise(b));
    }
}

/// Resolving `..` does not see noise.
proof fn lemma_resolve_drop_noise(ps: Seq<Seq<char>>)
    ensures
        resolve_dots(drop_noise(ps)) == resolve_dots(ps),
    decreases ps.len(),
{
    if ps.len() > 0 {
        let p1 = ps.drop_last();
        lemma_resolve_drop_noise(p1);
        if !is_noise(ps.last()) {
            let d = drop_noise(p1).push(ps.last());
            assert(d.drop_last() =~= drop_noise(p1));
        }
    }
}

// ------------------------------------------------------------ trimming lemmas

proof fn lemma_trim_shape(r: Seq<char>)
    ensures
        trim_slashes(r).len() <= r.len(),
        r.take(trim_slashes(r).len() as int) == trim_slashes(r),
        forall|i: int| trim_slashes(r).len() <= i < r.len() ==> r[i] == '/',
    decreases r.len(),
{
    if r.len() > 0 && r.last() == '/' {
        let r1 = r.drop_last();
        lemma_trim_shape(r1);
        let t = trim_slashes(r1);
        assert(r.take(t.len() as int) =~= r1.take(t.len() as int));
        assert forall|i: int| t.len() <= i < r.len() implies r[i] == '/' by {
            if i < r1.len() {
                assert(r[i] == r1[i]);
            }
        }
    } else {
        assert(r.take(r.len() as int) =~= r);
    }
}

proof fn lemma_to_posix_concat(a: Seq<char>, b: Seq<char>)
    ensures
        to_posix(a + b) == to_posix(a) + to_posix(b),
{
    assert(to_posix(a + b) =~= to_posix(a) + to_posix(b));
}

/// For an absolute root, trailing slashes change no component.
proof fn lemma_effective_root_components(r: Seq<char>)
    requires
        is_abs_path(r),
    ensures
        components(effective_root(r)) == components(r),
{
    let t = trim_slashes(r);
    if t.len() != 0 && t.len() < r.len() {
        lemma_trim_shape(r);
        let rest = r.skip(t.len() as int + 1);
        assert(r =~= t + seq!['/'] + rest);
        assert forall|i: int| 0 <= i < rest.len() implies rest[i] == '/' by {
            assert(rest[i] == r[t.len() + 1 + i]);
        }
        lemma_split_concat(t, rest);
        lemma_split_all_slashes(rest);
        lemma_drop_noise_concat(split_slash(t), split_slash(rest));
        assert(drop_noise(split_slash(r)) =~= drop_noise(split_slash(t)));
        assert(t[0] == r[0]);
        assert(lead_component(t) == lead_component(r));
    } else if t.len() != 0 {
        lemma_trim_shape(r);
        assert(t =~= r);
    }
}

// ----------------------------------------------------------- clean segments

/// No separator of either kind.
pub open spec fn no_sep(x: Seq<char>) -> bool {
    forall|i: int| 0 <= i < x.len() ==> x[i] != '/' && x[i] != '\\'
}

pub open spec fn pieces_ok(ps: Seq<Seq<char>>) -> bool {
    forall|i: int| 0 <= i < ps.len() ==> no_sep(#[trigger] ps[i])
}

/// Segments that name a directory or file: not empty, not `.`, not `..`, no separator.
pub open spec fn parts_clean(ps: Seq<Seq<char>>) -> bool {
    forall|i: int|
        0 <= i < ps.len() ==> !is_noise(#[trigger] ps[i]) && ps[i] != parent_seg() && no_sep(ps[i])
}

/// A relative POSIX path made of clean segments only: no backslash, and every
/// `/`-separated segment is neither empty, nor `.`, nor `..`.
pub open spec fn is_clean_rel_path(s: Seq<char>) -> bool {
    &&& forall|i: int| 0 <= i < s.len() ==> s[i] != '\\'
    &&& forall|i: int|
        0 <= i < split_slash(s).len() ==> !is_noise(#[trigger] split_slash(s)[i])
            && split_slash(s)[i] != parent_seg()
}

proof fn lemma_to_posix_no_backslash(s: Seq<char>)
    ensures
        forall|i: int| 0 <= i < to_posix(s).len() ==> to_posix(s)[i] != '\\',
{
}

proof fn lemma_split_pieces_ok(s: Seq<char>)
    requires
        forall|i: int| 0 <= i < s.len() ==> s[i] != '\\',
    ensures
        pieces_ok(split_slash(s)),
    decreases s.len(),
{
    if s.len() > 0 {
        let s1 = s.drop_last();
        lemma_split_pieces_ok(s1);
        lemma_split_len(s1);
        let p = split_slash(s1);
        if s.last() != '/' {
            let q = p.update(p.len() - 1, p.last().push(s.last()));
            assert forall|i: int| 0 <= i < q.len() implies no_sep(#[trigger] q[i]) by {
                if i == p.len() - 1 {
                    assert(no_sep(p[i]));
                    assert(q[i] == p[i].push(s.last()));
                }
            }
        } else {
            let q = p.push(Seq::<char>::empty());
            assert forall|i: int| 0 <= i < q.len() implies no_sep(#[trigger] q[i]) by {
                if i < p.len() {
                    assert(q[i] == p[i]);
                }
            }
        }
    }
}

proof fn lemma_drop_noise_ok(ps: Seq<Seq<char>>)
    requires
        pieces_ok(ps),
    ensures
        pieces_ok(drop_noise(ps)),
        forall|i: int| 0 <= i < drop_noise(ps).len() ==> !is_noise(#[trigger] drop_noise(ps)[i]),
    decreases ps.len(),
{
    if ps.len() > 0 {
        let p1 = ps.drop_last();
        assert(pieces_ok(p1)) by {
            assert forall|i: int| 0 <= i < p1.len() implies no_sep(#[trigger] p1[i]) by {
                assert(p1[i] == ps[i]);
            }
        }
        lemma_drop_noise_ok(p1);
        assert(no_sep(ps[ps.len() - 1]));
    }
}

proof fn lemma_resolve_clean(ps: Seq<Seq<char>>)
    requires
        pieces_ok(ps),
        resolve_dots(ps) is Some,
    ensures
        parts_clean(resolve_dots(ps).unwrap()),
    decreases ps.len(),
{
    if ps.len() > 0 {
        let p1 = ps.drop_last();
        assert(pieces_ok(p1)) by {
            assert forall|i: int| 0 <= i < p1.len() implies no_sep(#[trigger] p1[i]) by {
                assert(p1[i] == ps[i]);
            }
        }
        assert(resolve_dots(p1) is Some);
        lemma_resolve_clean(p1);
        let st = resolve_dots(p1).unwrap();
        let x = ps.last();
        assert(no_sep(ps[ps.len() - 1]));
        let r = resolve_dots(ps).unwrap();
        assert forall|i: int| 0 <= i < r.len() implies !is_noise(#[trigger] r[i]) && r[i]
            != parent_seg() && no_sep(r[i]) by {
            if i < st.len() {
                assert(r[i] == st[i]);
            }
        }
    }
}

/// Clean segments resolve to themselves.
proof fn lemma_resolve_clean_identity(ps: Seq<Seq<char>>)
    requires
        parts_clean(ps),
    ensures
        resolve_dots(ps) == Some(ps),
    decreases ps.len(),
{
    if ps.len() == 0 {
        assert(ps =~= Seq::<Seq<char>>::empty());
    } else {
        let p1 = ps.drop_last();
        assert(parts_clean(p1)) by {
            assert forall|i: int| 0 <= i < p1.len() implies !is_noise(#[trigger] p1[i]) && p1[i]
                != parent_seg() && no_sep(p1[i]) by {
                assert(p1[i] == ps[i]);
            }
        }
        lemma_resolve_clean_identity(p1);
        assert(!is_noise(ps[ps.len() - 1]) && ps[ps.len() - 1] != parent_seg());
        assert(p1.push(ps.last()) =~= ps);
    }
}

/// Joining clean segments and splitting again gives them back.
proof fn lemma_split_join(parts: Seq<Seq<char>>)
    requires
        parts.len() >= 1,
        parts_clean(parts),
    ensures
        split_slash(join_slash(parts)) == parts,
        forall|i: int| 0 <= i < join_slash(parts).len() ==> join_slash(parts)[i] != '\\',
    decreases parts.len(),
{
    let last = parts.last();
    assert(no_sep(parts[parts.len() - 1]));
    assert(forall|i: int| 0 <= i < last.len() ==> last[i] != '/');
    lemma_split_no_slash(last);
    if parts.len() == 1 {
        assert(parts[0] == last);
        assert(seq![last] =~= parts);
    } else {
        let p1 = parts.drop_last();
        assert(parts_clean(p1)) by {
            assert forall|i: int| 0 <= i < p1.len() implies !is_noise(#[trigger] p1[i]) && p1[i]
                != parent_seg() && no_sep(p1[i]) by {
                assert(p1[i] == parts[i]);
            }
        }
        lemma_split_join(p1);
        let j = join_slash(p1);
        assert(join_slash(parts) == j.push('/') + last);
        assert(j.push('/') + last =~= j + seq!['/'] + last);
        lemma_split_concat(j, last);
        assert(p1 + seq![last] =~= parts);
        let s = join_slash(parts);
        assert forall|i: int| 0 <= i < s.len() implies s[i] != '\\' by {
            if i < j.len() {
                assert(s[i] == j[i]);
            } else if i > j.len() {
                assert(s[i] == last[i - j.len() - 1]);
            }
        }
    }
}

proof fn lemma_first_piece(p: Seq<char>)
    requires
        p.len() > 0,
        p[0] != '/',
    ensures
        split_slash(p)[0].len() > 0,
        split_slash(p)[0][0] == p[0],
        split_slash(p)[0].len() == 1 ==> (p.len() == 1 || p[1] == '/'),
    decreases p.len(),
{
    let s = split_slash(p);
    if p.len() == 1 {
        assert(p.drop_last() =~= Seq::<char>::empty());
        assert(split_slash(p.drop_last()) =~= seq![Seq::<char>::empty()]);
        assert(s[0] =~= seq![p[0]]);
    } else {
        let p1 = p.drop_last();
        lemma_first_piece(p1);
        lemma_split_len(p1);
        let q = split_slash(p1);
        assert(p1[0] == p[0]);
        if p1.len() > 1 {
            assert(p1[1] == p[1]);
        } else {
            assert(p.last() == p[1]);
            assert(forall|i: int| 0 <= i < p1.len() ==> p1[i] != '/');
            lemma_split_no_slash(p1);
        }
        if p.last() == '/' {
            assert(s[0] == q[0]);
        } else if q.len() > 1 {
            assert(s[0] == q[0]);
        } else {
            assert(s[0] == q[0].push(p.last()));
        }
    }
}

/// A non-empty path has at least one component.
proof fn lemma_components_nonempty(p: Seq<char>)
    requires
        p.len() > 0,
    ensures
        components(p).len() >= 1,
{
    if lead_component(p).len() == 0 {
        lemma_first_piece(p);
        lemma_split_len(p);
        let ps = split_slash(p);
        let x = ps[0];
        if x == seq!['.'] {
            assert(x.len() == 1 && x[0] == '.');
        }
        assert(!is_noise(x));
        assert(ps =~= seq![x] + ps.skip(1));
        lemma_drop_noise_concat(seq![x], ps.skip(1));
        assert(seq![x].drop_last() =~= Seq::<Seq<char>>::empty());
        assert(drop_noise(seq![x].drop_last()).len() == 0);
        assert(drop_noise(seq![x]).len() == 1);
    }
}

/// The segments handed to `..` resolution carry no separator.
proof fn lemma_rel_pieces_ok(root: Seq<char>, file: Seq<char>)
    requires
        root.len() > 0,
        rel_pieces(root, file) is Some,
    ensures
        pieces_ok(rel_pieces(root, file).unwrap()),
{
    let f = to_posix(file);
    let r = effective_root(to_posix(root));
    lemma_to_posix_no_backslash(file);
    lemma_split_pieces_ok(f);
    if is_abs_path(f) {
        assert(to_posix(root).len() > 0);
        assert(r.len() > 0);
        lemma_components_nonempty(r);
        let n = components(r).len();
        let d = drop_noise(split_slash(f));
        lemma_drop_noise_ok(split_slash(f));
        let lead = lead_component(f);
        let cf = components(f);
        let rest = cf.skip(n as int);
        assert(lead.len() <= 1);
        assert forall|i: int| 0 <= i < rest.len() implies no_sep(#[trigger] rest[i]) by {
            assert(rest[i] == cf[n + i]);
            assert(cf[n + i] == d[n + i - lead.len()]);
        }
    }
}

// ------------------------------------------------------------------- the laws

/// Absolute and relative filenames stamp identical coordinates: under an absolute
/// `root`, the filename `root/rel` (webpack's shape) gives exactly what the
/// already-relative `rel` (Turbopack's shape) gives, result or refusal.
pub proof fn law_absolute_and_relative_agree(root: Seq<char>, rel: Seq<char>)
    requires
        root.len() > 0,
        rel.len() > 0,
        is_abs_path(to_posix(root)),
        !is_abs_path(to_posix(rel)),
    ensures
        rel_posix_spec(root, root + seq!['/'] + rel) == rel_posix_spec(root, rel),
{
    let r = to_posix(root);
    let f = to_posix(rel);
    let file = root + seq!['/'] + rel;
    lemma_to_posix_concat(root + seq!['/'], rel);
    lemma_to_posix_concat(root, seq!['/']);
    assert(to_posix(seq!['/']) =~= seq!['/']);
    let fp = to_posix(file);
    assert(fp == r + seq!['/'] + f);
    // The absolute filename keeps the root's leading component.
    assert(fp[0] == r[0]);
    if r.len() >= 2 {
        assert(fp[1] == r[1]);
    } else {
        assert(r[0] == '/');
    }
    assert(is_abs_path(fp));
    assert(lead_component(fp) == lead_component(r));
    lemma_split_concat(r, f);
    lemma_drop_noise_concat(split_slash(r), split_slash(f));
    assert(components(fp) =~= components(r) + drop_noise(split_slash(f)));
    lemma_effective_root_components(r);
    let cr = components(effective_root(r));
    let x = drop_noise(split_slash(f));
    assert((cr + x).take(cr.len() as int) =~= cr);
    assert((cr + x).skip(cr.len() as int) =~= x);
    assert(rel_pieces(root, file) == Some(x));
    assert(rel_pieces(root, rel) == Some(split_slash(f)));
    lemma_resolve_drop_noise(split_slash(f));
}

/// Every path the plugin emits is a clean relative POSIX path: non-empty, no
/// leading `/`, no backslash, and no empty, `.` or `..` segment (PortBay's
/// resolver rejects any `..`).
pub proof fn law_rel_path_is_clean(root: Seq<char>, file: Seq<char>)
    ensures
        rel_posix_spec(root, file) matches Ok(s) ==> {
            &&& is_clean_rel_path(s)
            &&& s.len() > 0
            &&& s[0] != '/'
        },
{
    if let Ok(s) = rel_posix_spec(root, file) {
        lemma_rel_pieces_ok(root, file);
        let ps = rel_pieces(root, file).unwrap();
        lemma_resolve_clean(ps);
        let parts = resolve_dots(ps).unwrap();
        lemma_split_join(parts);
        assert(s == join_slash(parts));
        if s.len() == 0 {
            assert(split_slash(s)[0] =~= Seq::<char>::empty());
        } else if s[0] == '/' {
            let e = Seq::<char>::empty();
            assert(s =~= e + seq!['/'] + s.skip(1));
            lemma_split_concat(e, s.skip(1));
            assert(split_slash(e) =~= seq![e]);
            assert(split_slash(s)[0] == e);
        }
    }
}

/// Normalisation is idempotent: a path the plugin emitted, handed back as a
/// filename under any root, comes out unchanged. (Excluded: an emitted path whose
/// first segment is itself drive-shaped, such as `c:/x`, which reads as absolute.)
pub proof fn law_rel_posix_idempotent(root: Seq<char>, file: Seq<char>, other_root: Seq<char>)
    requires
        rel_posix_spec(root, file) is Ok,
        !is_abs_path(rel_posix_spec(root, file)->Ok_0),
        other_root.len() > 0,
    ensures
        rel_posix_spec(other_root, rel_posix_spec(root, file)->Ok_0) == rel_posix_spec(root, file),
{
    let s = rel_posix_spec(root, file)->Ok_0;
    lemma_rel_pieces_ok(root, file);
    let ps = rel_pieces(root, file).unwrap();
    lemma_resolve_clean(ps);
    let parts = resolve_dots(ps).unwrap();
    lemma_split_join(parts);
    assert(to_posix(s) =~= s);
    if s.len() == 0 {
        assert(split_slash(s)[0] =~= Seq::<char>::empty());
        assert(!is_noise(parts[0]));
    }
    assert(rel_pieces(other_root, s) == Some(parts));
    lemma_resolve_clean_identity(parts);
}

/// A trailing slash on `root` changes nothing: `/proj/` and `/proj` relate
/// every filename alike.
pub proof fn law_root_trailing_slash(root: Seq<char>, file: Seq<char>)
    requires
        root.len() > 0,
    ensures
        rel_posix_spec(root.push('/'), file) == rel_posix_spec(root, file),
{
    let r = to_posix(root);
    let r2 = to_posix(root.push('/'));
    assert(r2 =~= r.push('/'));
    assert(r2.drop_last() =~= r);
    assert(trim_slashes(r2) == trim_slashes(r));
    if trim_slashes(r).len() == 0 {
        lemma_trim_shape(r);
        lemma_trim_shape(r2);
        assert(lead_component(r) == seq![seq!['/']]);
        assert(lead_component(r2) == seq![seq!['/']]);
        lemma_split_all_slashes(r);
        lemma_split_all_slashes(r2);
        assert(components(r) =~= components(r2));
    }
    assert(components(effective_root(r2)) == components(effective_root(r)));
    assert(rel_pieces(root.push('/'), file) == rel_pieces(root, file));
}

// ------------------------------------------------------------- `..` resolution

/// Resolution is a left-to-right fold: what comes after a prefix only sees the
/// prefix's outcome.
proof fn lemma_resolve_same_prefix(a: Seq<Seq<char>>, a2: Seq<Seq<char>>, b: Seq<Seq<char>>)
    requires
        resolve_dots(a) == resolve_dots(a2),
    ensures
        resolve_dots(a + b) == resolve_dots(a2 + b),
    decreases b.len(),
{
    if b.len() == 0 {
        assert(a + b =~= a);
        assert(a2 + b =~= a2);
    } else {
        let b1 = b.drop_last();
        lemma_resolve_same_prefix(a, a2, b1);
        assert((a + b).drop_last() =~= a + b1);
        assert((a2 + b).drop_last() =~= a2 + b1);
        assert((a + b).last() == b.last());
        assert((a2 + b).last() == b.last());
    }
}

/// A `..` removes exactly the one segment kept just before it: a named segment
/// followed by `..` resolves as if neither were there.
pub proof fn law_dot_dot_cancels_one_segment(ps: Seq<Seq<char>>, x: Seq<char>)
    requires
        !is_noise(x),
        x != parent_seg(),
    ensures
        resolve_dots(ps.push(x).push(parent_seg())) == resolve_dots(ps),
{
    let q = ps.push(x);
    assert(q.drop_last() =~= ps);
    assert(q.push(parent_seg()).drop_last() =~= q);
    assert(!is_noise(parent_seg())) by {
        assert(parent_seg().len() == 2);
    }
    assert(q.last() == x);
    assert(q.push(parent_seg()).last() == parent_seg());
    match resolve_dots(ps) {
        Some(st) => {
            assert(resolve_dots(q) == Some(st.push(x)));
            assert(st.push(x).drop_last() =~= st);
        },
        None => {
            assert(resolve_dots(q) is None);
        },
    }
}

/// The same, anywhere in the sequence: `ps, x, .., qs` resolves as `ps, qs`.
pub proof fn law_dot_dot_cancels_anywhere(ps: Seq<Seq<char>>, x: Seq<char>, qs: Seq<Seq<char>>)
    requires
        !is_noise(x),
        x != parent_seg(),
    ensures
        resolve_dots(ps + seq![x, parent_seg()] + qs) == resolve_dots(ps + qs),
{
    law_dot_dot_cancels_one_segment(ps, x);
    assert(ps + seq![x, parent_seg()] =~= ps.push(x).push(parent_seg()));
    lemma_resolve_same_prefix(ps.push(x).push(parent_seg()), ps, qs);
}

/// In a filename, `dir/x/../rest` is stamped exactly as `dir/rest`: the `..`
/// removes `x` and nothing else.
pub proof fn law_filename_dot_dot_cancels_segment(
    root: Seq<char>,
    dir: Seq<char>,
    x: Seq<char>,
    rest: Seq<char>,
)
    requires
        dir.len() > 0,
        !is_abs_path(to_posix(dir)),
        !is_noise(x),
        x != parent_seg(),
        no_sep(x),
    ensures
        rel_posix_spec(root, dir + seq!['/'] + x + seq!['/', '.', '.', '/'] + rest)
            == rel_posix_spec(root, dir + seq!['/'] + rest),
{
    let a = to_posix(dir);
    let b = to_posix(rest);
    let dd = seq!['.', '.'];
    assert(dd == parent_seg());
    let long = dir + seq!['/'] + x + seq!['/', '.', '.', '/'] + rest;
    let short = dir + seq!['/'] + rest;
    assert(to_posix(x) =~= x);
    assert(to_posix(long) =~= a + seq!['/'] + (x + seq!['/'] + (dd + seq!['/'] + b)));
    assert(to_posix(short) =~= a + seq!['/'] + b);
    let lp = to_posix(long);
    let sp = to_posix(short);
    // Neither is absolute: both start like `dir`, then a slash.
    assert(lp[0] == a[0] && sp[0] == a[0]);
    if a.len() >= 2 {
        assert(lp[1] == a[1] && sp[1] == a[1]);
    } else {
        assert(lp[1] == '/' && sp[1] == '/');
    }
    assert(!is_abs_path(lp));
    assert(!is_abs_path(sp));
    lemma_split_concat(a, x + seq!['/'] + (dd + seq!['/'] + b));
    lemma_split_concat(x, dd + seq!['/'] + b);
    lemma_split_concat(dd, b);
    assert(forall|i: int| 0 <= i < x.len() ==> x[i] != '/');
    lemma_split_no_slash(x);
    assert(forall|i: int| 0 <= i < dd.len() ==> dd[i] != '/');
    lemma_split_no_slash(dd);
    lemma_split_concat(a, b);
    assert(split_slash(lp) =~= split_slash(a) + seq![x, parent_seg()] + split_slash(b));
    law_dot_dot_cancels_anywhere(split_slash(a), x, split_slash(b));
    assert(rel_pieces(root, long) == Some(split_slash(lp)));
    assert(rel_pieces(root, short) == Some(split_slash(sp)));
}

proof fn lemma_resolve_none_then_none(a: Seq<Seq<char>>, b: Seq<Seq<char>>)
    requires
        resolve_dots(a) is None,
    ensures
        resolve_dots(a + b) is None,
    decreases b.len(),
{
    if b.len() == 0 {
        assert(a + b =~= a);
    } else {
        lemma_resolve_none_then_none(a, b.drop_last());
        assert((a + b).drop_last() =~= a + b.drop_last());
    }
}

/// A `..` with nothing kept before it climbs above the root: whatever follows,
/// the whole resolution refuses.
pub proof fn law_dot_dot_at_top_refuses(qs: Seq<Seq<char>>)
    ensures
        resolve_dots(seq![parent_seg()] + qs) is None,
{
    let a = seq![parent_seg()];
    assert(a.drop_last() =~= Seq::<Seq<char>>::empty());
    assert(resolve_dots(a.drop_last()) == Some(Seq::<Seq<char>>::empty()));
    assert(!is_noise(parent_seg())) by {
        assert(parent_seg().len() == 2);
    }
    assert(a.last() == parent_seg());
    lemma_resolve_none_then_none(a, qs);
}

/// A named segment is kept, after everything kept before it; empty and `.`
/// segments change nothing.
pub proof fn law_segments_kept_in_order(ps: Seq<Seq<char>>, x: Seq<char>)
    ensures
        !is_noise(x) && x != parent_seg() ==> resolve_dots(ps.push(x)) == (match resolve_dots(ps) {
            Some(st) => Some(st.push(x)),
            None => None,
        }),
        is_noise(x) ==> resolve_dots(ps.push(x)) == resolve_dots(ps),
{
    assert(ps.push(x).drop_last() =~= ps);
    assert(ps.push(x).last() == x);
}

proof fn lemma_join_extend_last(q: Seq<Seq<char>>, c: char)
    requires
        q.len() >= 1,
    ensures
        join_slash(q.update(q.len() - 1, q.last().push(c))) == join_slash(q).push(c),
{
    let u = q.update(q.len() - 1, q.last().push(c));
    if q.len() == 1 {
        assert(u[0] == q[0].push(c));
    } else {
        assert(u.drop_last() =~= q.drop_last());
        assert(u.last() == q.last().push(c));
        assert(join_slash(u) =~= join_slash(q).push(c));
    }
}

/// Splitting at the slashes loses nothing: joining the pieces back with single
/// slashes gives the original string, and no piece holds a slash.
pub proof fn law_split_then_join_is_identity(s: Seq<char>)
    ensures
        join_slash(split_slash(s)) == s,
        forall|i: int, j: int|
            0 <= i < split_slash(s).len() && 0 <= j < split_slash(s)[i].len() ==> split_slash(s)[i][j]
                != '/',
    decreases s.len(),
{
    if s.len() == 0 {
        assert(split_slash(s) =~= seq![Seq::<char>::empty()]);
        assert(join_slash(split_slash(s)) =~= s);
    } else {
        let s1 = s.drop_last();
        law_split_then_join_is_identity(s1);
        lemma_split_len(s1);
        let p = split_slash(s1);
        if s.last() == '/' {
            let q = p.push(Seq::<char>::empty());
            assert(q.drop_last() =~= p);
            assert(join_slash(q) =~= s);
            assert forall|i: int, j: int| 0 <= i < q.len() && 0 <= j < q[i].len() implies q[i][j]
                != '/' by {
                assert(q[i] == p[i]);
            }
        } else {
            lemma_join_extend_last(p, s.last());
            assert(s1.push(s.last()) =~= s);
            let q = p.update(p.len() - 1, p.last().push(s.last()));
            assert forall|i: int, j: int| 0 <= i < q.len() && 0 <= j < q[i].len() implies q[i][j]
                != '/' by {
                if i != p.len() - 1 {
                    assert(q[i] == p[i]);
                } else if j < p[i].len() {
                    assert(q[i][j] == p[i][j]);
                }
            }
        }
    }
}

} // verus!
