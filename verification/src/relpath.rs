//! Project-root-relative POSIX paths.
//!
//! A filename reaches the plugin in one of two shapes: absolute (`/proj/app/page.tsx`,
//! or a Windows drive form `C:\proj\app\page.tsx`), which must live under `root`, or
//! already root-relative (`app/page.tsx`). Either way the result is a POSIX path with
//! no `.`, empty or `..` segment, or a [`RelRefusal`] that says why there is none.
//!
//! The model works on the character sequences of the strings. An absolute filename
//! is matched against `root` component by component: a leading `/` is the root
//! component, a leading `.` alone or before a `/` is the current-directory component,
//! and the remaining components are the `/`-separated segments that are neither empty
//! nor `.` (a `..` segment is a component of its own).

use vstd::prelude::*;
use crate::text::{chars_of, chars_eq, copy_chars, push_char};

verus! {

/// Why [`rel_posix_checked`] refused to produce a stamp path.
#[derive(Debug, Clone, Copy, PartialEq, Eq, Structural)]
pub enum RelRefusal {
    /// No `root` in the plugin config (the default is "stamp nothing").
    NoRoot,
    /// The host gave no filename for this module.
    NoFilename,
    /// An absolute `filename` that does not live under `root`.
    OutsideRoot,
    /// A relative `filename` that climbs out of `root` with `..`.
    EscapesRoot,
    /// `filename` resolved to `root` itself: no file component to stamp.
    EmptyPath,
}

/// The explanation attached to each refusal.
pub open spec fn why_text(r: RelRefusal) -> Seq<char> {
    match r {
        RelRefusal::NoRoot => "no `root` was configured, so every file is treated as outside the project"@,
        RelRefusal::NoFilename => "the bundler supplied no filename for this module"@,
        RelRefusal::OutsideRoot => "the file is an absolute path outside `root`"@,
        RelRefusal::EscapesRoot => "the file is a relative path that climbs above `root`"@,
        RelRefusal::EmptyPath => "the file resolved to `root` itself, leaving no relative path"@,
    }
}

impl RelRefusal {
    /// One-line explanation, ready to hang off a diagnostic. Never empty.
    pub fn why(self) -> (s: &'static str)
        ensures
            s@ == why_text(self),
            s@.len() > 0,
    {
        proof {
            reveal_strlit("no `root` was configured, so every file is treated as outside the project");
            reveal_strlit("the bundler supplied no filename for this module");
            reveal_strlit("the file is an absolute path outside `root`");
            reveal_strlit("the file is a relative path that climbs above `root`");
            reveal_strlit("the file resolved to `root` itself, leaving no relative path");
        }
        match self {
            RelRefusal::NoRoot => "no `root` was configured, so every file is treated as outside the project",
            RelRefusal::NoFilename => "the bundler supplied no filename for this module",
            RelRefusal::OutsideRoot => "the file is an absolute path outside `root`",
            RelRefusal::EscapesRoot => "the file is a relative path that climbs above `root`",
            RelRefusal::EmptyPath => "the file resolved to `root` itself, leaving no relative path",
        }
    }
}

// ------------------------------------------------------------------ the model

/// A backslash reads as a forward slash.
pub open spec fn posix_char(c: char) -> char {
    if c == '\\' { '/' } else { c }
}

/// `s` with every backslash turned into a forward slash.
pub open spec fn to_posix(s: Seq<char>) -> Seq<char> {
    s.map_values(|c: char| posix_char(c))
}

pub open spec fn is_ascii_alpha(c: char) -> bool {
    ('a' <= c && c <= 'z') || ('A' <= c && c <= 'Z')
}

/// A leading `/`, or a drive prefix: an ASCII letter followed by `:`.
pub open spec fn is_abs_path(p: Seq<char>) -> bool {
    (p.len() >= 1 && p[0] == '/') || (p.len() >= 2 && is_ascii_alpha(p[0]) && p[1] == ':')
}

/// `s` without its trailing slashes.
pub open spec fn trim_slashes(s: Seq<char>) -> Seq<char>
    decreases s.len(),
{
    if s.len() > 0 && s.last() == '/' {
        trim_slashes(s.drop_last())
    } else {
        s
    }
}

/// The root that is matched against: without trailing slashes, unless nothing
/// but slashes is left.
pub open spec fn effective_root(r: Seq<char>) -> Seq<char> {
    if trim_slashes(r).len() == 0 { r } else { trim_slashes(r) }
}

/// The pieces between the slashes of `s`: `k` slashes give `k + 1` pieces.
pub open spec fn split_slash(s: Seq<char>) -> Seq<Seq<char>>
    decreases s.len(),
{
    if s.len() == 0 {
        seq![Seq::<char>::empty()]
    } else {
        let p = split_slash(s.drop_last());
        if s.last() == '/' {
            p.push(Seq::<char>::empty())
        } else {
            p.update(p.len() - 1, p.last().push(s.last()))
        }
    }
}

/// A segment that names no directory: empty or `.`.
pub open spec fn is_noise(seg: Seq<char>) -> bool {
    seg.len() == 0 || seg == seq!['.']
}

pub open spec fn parent_seg() -> Seq<char> {
    seq!['.', '.']
}

/// `ps` without its noise segments.
pub open spec fn drop_noise(ps: Seq<Seq<char>>) -> Seq<Seq<char>>
    decreases ps.len(),
{
    if ps.len() == 0 {
        ps
    } else {
        let r = drop_noise(ps.drop_last());
        if is_noise(ps.last()) { r } else { r.push(ps.last()) }
    }
}

/// The root component (written `/`) or the current-directory component
/// (written `.`) that a path starts with, if any.
pub open spec fn lead_component(p: Seq<char>) -> Seq<Seq<char>> {
    if p.len() > 0 && p[0] == '/' {
        seq![seq!['/']]
    } else if p.len() > 0 && p[0] == '.' && (p.len() == 1 || p[1] == '/') {
        seq![seq!['.']]
    } else {
        Seq::empty()
    }
}

/// The components of a path.
pub open spec fn components(p: Seq<char>) -> Seq<Seq<char>> {
    lead_component(p) + drop_noise(split_slash(p))
}

/// What is left of `comps` after the components `base`, when `base` is a prefix.
pub open spec fn strip_components(comps: Seq<Seq<char>>, base: Seq<Seq<char>>) -> Option<
    Seq<Seq<char>>,
> {
    if base.len() <= comps.len() && comps.take(base.len() as int) == base {
        Some(comps.skip(base.len() as int))
    } else {
        None
    }
}

/// Resolve the segments left to right: noise is dropped, `..` removes the last
/// kept segment, and a `..` with nothing to remove is a refusal (`None`).
pub open spec fn resolve_dots(ps: Seq<Seq<char>>) -> Option<Seq<Seq<char>>>
    decreases ps.len(),
{
    if ps.len() == 0 {
        Some(Seq::empty())
    } else {
        match resolve_dots(ps.drop_last()) {
            None => None,
            Some(st) => {
                let x = ps.last();
                if is_noise(x) {
                    Some(st)
                } else if x == parent_seg() {
                    if st.len() == 0 { None } else { Some(st.drop_last()) }
                } else {
                    Some(st.push(x))
                }
            },
        }
    }
}

/// The parts joined by single slashes.
pub open spec fn join_slash(parts: Seq<Seq<char>>) -> Seq<char>
    decreases parts.len(),
{
    if parts.len() == 0 {
        Seq::empty()
    } else if parts.len() == 1 {
        parts[0]
    } else {
        join_slash(parts.drop_last()).push('/') + parts.last()
    }
}

/// The segments of `file` relative to `root`, before `..` is resolved; `None`
/// when an absolute `file` does not live under `root`.
pub open spec fn rel_pieces(root: Seq<char>, file: Seq<char>) -> Option<Seq<Seq<char>>> {
    let f = to_posix(file);
    let r = effective_root(to_posix(root));
    if is_abs_path(f) {
        strip_components(components(f), components(r))
    } else {
        Some(split_slash(f))
    }
}

/// The root-relative POSIX path of `file`, or why there is none.
pub open spec fn rel_posix_spec(root: Seq<char>, file: Seq<char>) -> Result<Seq<char>, RelRefusal> {
    if file.len() == 0 {
        Err(RelRefusal::NoFilename)
    } else if root.len() == 0 {
        Err(RelRefusal::NoRoot)
    } else {
        match rel_pieces(root, file) {
            None => Err(RelRefusal::OutsideRoot),
            Some(ps) => match resolve_dots(ps) {
                None => Err(RelRefusal::EscapesRoot),
                Some(parts) => if parts.len() == 0 {
                    Err(RelRefusal::EmptyPath)
                } else {
                    Ok(join_slash(parts))
                },
            },
        }
    }
}

/// The views of a vector of character vectors.
pub open spec fn pieces_view(v: Seq<Vec<char>>) -> Seq<Seq<char>> {
    v.map_values(|x: Vec<char>| x@)
}

pub open spec fn opt_pieces_view(o: Option<Vec<Vec<char>>>) -> Option<Seq<Seq<char>>> {
    match o {
        Some(v) => Some(pieces_view(v@)),
        None => None,
    }
}

// -------------------------------------------------------------- the functions

/// Is `p` an absolute path? A leading `/`, or a Windows drive prefix (`C:`).
pub fn is_absolute_pathish(p: &str) -> (res: bool)
    ensures
        res == is_abs_path(p@),
{
    let v = chars_of(p);
    is_abs_chars(&v)
}

fn is_abs_chars(v: &Vec<char>) -> (res: bool)
    ensures
        res == is_abs_path(v@),
{
    if v.len() >= 1 && v[0] == '/' {
        return true;
    }
    v.len() >= 2 && (('a' <= v[0] && v[0] <= 'z') || ('A' <= v[0] && v[0] <= 'Z')) && v[1] == ':'
}

/// The characters of `s` with backslashes turned into forward slashes.
fn posix_chars(s: &str) -> (v: Vec<char>)
    ensures
        v@ == to_posix(s@),
{
    let cs = chars_of(s);
    let mut v: Vec<char> = Vec::new();
    let mut i: usize = 0;
    while i < cs.len()
        invariant
            i <= cs.len(),
            cs@ == s@,
            v@ == to_posix(s@).take(i as int),
        decreases cs.len() - i,
    {
        let c = cs[i];
        if c == '\\' {
            v.push('/');
        } else {
            v.push(c);
        }
        i = i + 1;
        assert(v@ =~= to_posix(s@).take(i as int));
    }
    assert(to_posix(s@).take(cs.len() as int) =~= to_posix(s@));
    v
}

proof fn lemma_trim_step(r: Seq<char>, t: int)
    requires
        0 < t <= r.len(),
        r[t - 1] == '/',
    ensures
        trim_slashes(r.take(t)) == trim_slashes(r.take(t - 1)),
{
    assert(r.take(t).drop_last() =~= r.take(t - 1));
}

/// `effective_root` of `r`.
fn effective_root_chars(r: &Vec<char>) -> (res: Vec<char>)
    ensures
        res@ == effective_root(r@),
{
    let mut t: usize = r.len();
    assert(r@.take(t as int) =~= r@);
    while t > 0 && r[t - 1] == '/'
        invariant
            t <= r.len(),
            trim_slashes(r@) == trim_slashes(r@.take(t as int)),
        decreases t,
    {
        proof {
            lemma_trim_step(r@, t as int);
        }
        t = t - 1;
    }
    assert(trim_slashes(r@.take(t as int)) == r@.take(t as int));
    if t == 0 {
        copy_chars(r)
    } else {
        let mut res: Vec<char> = Vec::new();
        let mut i: usize = 0;
        while i < t
            invariant
                t <= r.len(),
                i <= t,
                res@ == r@.take(i as int),
            decreases t - i,
        {
            res.push(r[i]);
            i = i + 1;
            assert(res@ =~= r@.take(i as int));
        }
        res
    }
}

proof fn lemma_split_step(s: Seq<char>, i: int)
    requires
        0 <= i < s.len(),
    ensures
        split_slash(s.take(i + 1)) == (if s[i] == '/' {
            split_slash(s.take(i)).push(Seq::<char>::empty())
        } else {
            let p = split_slash(s.take(i));
            p.update(p.len() - 1, p.last().push(s[i]))
        }),
{
    assert(s.take(i + 1).drop_last() =~= s.take(i));
}

/// The pieces of `s` between its slashes.
fn split_pieces(s: &Vec<char>) -> (res: Vec<Vec<char>>)
    ensures
        pieces_view(res@) == split_slash(s@),
{
    let mut done: Vec<Vec<char>> = Vec::new();
    let mut cur: Vec<char> = Vec::new();
    let mut i: usize = 0;
    assert(pieces_view(done@).push(cur@) =~= split_slash(s@.take(0)));
    while i < s.len()
        invariant
            i <= s.len(),
            pieces_view(done@).push(cur@) == split_slash(s@.take(i as int)),
        decreases s.len() - i,
    {
        proof {
            lemma_split_step(s@, i as int);
        }
        let ghost old_done = done@;
        let ghost old_cur = cur@;
        if s[i] == '/' {
            let finished = cur;
            cur = Vec::new();
            done.push(finished);
            assert(pieces_view(done@) =~= pieces_view(old_done).push(old_cur));
            assert(pieces_view(done@).push(cur@) =~= split_slash(s@.take(i + 1)));
        } else {
            cur.push(s[i]);
            assert(pieces_view(done@).push(cur@) =~= split_slash(s@.take(i + 1)));
        }
        i = i + 1;
    }
    assert(s@.take(s.len() as int) =~= s@);
    let ghost old_done = done@;
    done.push(cur);
    assert(pieces_view(done@) =~= pieces_view(old_done).push(cur@));
    done
}

fn is_noise_piece(p: &Vec<char>) -> (res: bool)
    ensures
        res == is_noise(p@),
{
    if p.len() == 0 {
        return true;
    }
    let r = p.len() == 1 && p[0] == '.';
    proof {
        if p@ == seq!['.'] {
            assert(p@.len() == 1 && p@[0] == '.');
        }
        if r {
            assert(p@ =~= seq!['.']);
        }
    }
    r
}

fn is_parent_piece(p: &Vec<char>) -> (res: bool)
    ensures
        res == (p@ == parent_seg()),
{
    let r = p.len() == 2 && p[0] == '.' && p[1] == '.';
    proof {
        if p@ == parent_seg() {
            assert(p@.len() == 2 && p@[0] == '.' && p@[1] == '.');
        }
        if r {
            assert(p@ =~= parent_seg());
        }
    }
    r
}

/// The components of `p`.
fn components_of(p: &Vec<char>) -> (res: Vec<Vec<char>>)
    ensures
        pieces_view(res@) == components(p@),
{
    let sp = split_pieces(p);
    let mut out: Vec<Vec<char>> = Vec::new();
    if p.len() > 0 && p[0] == '/' {
        let mut m: Vec<char> = Vec::new();
        m.push('/');
        out.push(m);
    } else if p.len() > 0 && p[0] == '.' && (p.len() == 1 || p[1] == '/') {
        let mut m: Vec<char> = Vec::new();
        m.push('.');
        out.push(m);
    }
    let ghost lead = lead_component(p@);
    let ghost spv = pieces_view(sp@);
    assert(pieces_view(out@) =~= lead + drop_noise(spv.take(0)));
    let mut i: usize = 0;
    while i < sp.len()
        invariant
            i <= sp.len(),
            spv == pieces_view(sp@),
            pieces_view(out@) == lead + drop_noise(spv.take(i as int)),
        decreases sp.len() - i,
    {
        assert(spv.take(i + 1).drop_last() =~= spv.take(i as int));
        assert(spv.take(i + 1).last() == sp@[i as int]@);
        if !is_noise_piece(&sp[i]) {
            let ghost old_out = out@;
            let c = copy_chars(&sp[i]);
            out.push(c);
            assert(pieces_view(out@) =~= pieces_view(old_out).push(c@));
            assert(pieces_view(out@) =~= lead + drop_noise(spv.take(i + 1)));
        }
        i = i + 1;
    }
    assert(spv.take(sp.len() as int) =~= spv);
    out
}

/// `strip_components` on vectors.
fn strip_prefix_components(comps: &Vec<Vec<char>>, base: &Vec<Vec<char>>) -> (res: Option<
    Vec<Vec<char>>,
>)
    ensures
        opt_pieces_view(res) == strip_components(pieces_view(comps@), pieces_view(base@)),
{
    let ghost cv = pieces_view(comps@);
    let ghost bv = pieces_view(base@);
    if base.len() > comps.len() {
        return None;
    }
    let mut i: usize = 0;
    while i < base.len()
        invariant
            base.len() <= comps.len(),
            i <= base.len(),
            cv == pieces_view(comps@),
            bv == pieces_view(base@),
            forall|j: int| 0 <= j < i ==> cv[j] == bv[j],
        decreases base.len() - i,
    {
        if !chars_eq(&comps[i], &base[i]) {
            assert(cv.take(base.len() as int)[i as int] != bv[i as int]);
            return None;
        }
        i = i + 1;
    }
    assert(cv.take(base.len() as int) =~= bv);
    let mut rest: Vec<Vec<char>> = Vec::new();
    let mut k: usize = base.len();
    while k < comps.len()
        invariant
            base.len() <= k <= comps.len(),
            cv == pieces_view(comps@),
            pieces_view(rest@) == cv.subrange(base.len() as int, k as int),
        decreases comps.len() - k,
    {
        let ghost old_rest = rest@;
        let c = copy_chars(&comps[k]);
        rest.push(c);
        assert(pieces_view(rest@) =~= pieces_view(old_rest).push(c@));
        k = k + 1;
        assert(pieces_view(rest@) =~= cv.subrange(base.len() as int, k as int));
    }
    assert(cv.subrange(base.len() as int, comps.len() as int) =~= cv.skip(base.len() as int));
    Some(rest)
}

proof fn lemma_resolve_none_extends(ps: Seq<Seq<char>>, k: int)
    requires
        0 <= k <= ps.len(),
        resolve_dots(ps.take(k)) is None,
    ensures
        resolve_dots(ps) is None,
    decreases ps.len() - k,
{
    if k < ps.len() {
        assert(ps.take(k + 1).drop_last() =~= ps.take(k));
        lemma_resolve_none_extends(ps, k + 1);
    } else {
        assert(ps.take(k) =~= ps);
    }
}

/// `resolve_dots` on vectors.
fn resolve_pieces(ps: &Vec<Vec<char>>) -> (res: Option<Vec<Vec<char>>>)
    ensures
        opt_pieces_view(res) == resolve_dots(pieces_view(ps@)),
{
    let ghost pv = pieces_view(ps@);
    let mut stack: Vec<Vec<char>> = Vec::new();
    let mut i: usize = 0;
    assert(pv.take(0) =~= Seq::<Seq<char>>::empty());
    while i < ps.len()
        invariant
            i <= ps.len(),
            pv == pieces_view(ps@),
            resolve_dots(pv.take(i as int)) == Some(pieces_view(stack@)),
        decreases ps.len() - i,
    {
        assert(pv.take(i + 1).drop_last() =~= pv.take(i as int));
        assert(pv.take(i + 1).last() == ps@[i as int]@);
        let ghost old_stack = stack@;
        if is_noise_piece(&ps[i]) {
        } else if is_parent_piece(&ps[i]) {
            if stack.len() == 0 {
                proof {
                    lemma_resolve_none_extends(pv, i + 1);
                }
                return None;
            }
            stack.pop();
            assert(pieces_view(stack@) =~= pieces_view(old_stack).drop_last());
        } else {
            let c = copy_chars(&ps[i]);
            stack.push(c);
            assert(pieces_view(stack@) =~= pieces_view(old_stack).push(c@));
        }
        i = i + 1;
    }
    assert(pv.take(ps.len() as int) =~= pv);
    Some(stack)
}

/// The parts joined by single slashes.
fn join_parts(parts: &Vec<Vec<char>>) -> (s: String)
    requires
        parts.len() >= 1,
    ensures
        s@ == join_slash(pieces_view(parts@)),
{
    let ghost pv = pieces_view(parts@);
    let mut s = String::new();
    let mut i: usize = 0;
    while i < parts.len()
        invariant
            i <= parts.len(),
            pv == pieces_view(parts@),
            i == 0 ==> s@ == Seq::<char>::empty(),
            i > 0 ==> s@ == join_slash(pv.take(i as int)),
        decreases parts.len() - i,
    {
        let ghost before = s@;
        if i > 0 {
            push_char(&mut s, '/');
        }
        let part = &parts[i];
        let mut j: usize = 0;
        while j < part.len()
            invariant
                j <= part.len(),
                s@ == (if i > 0 { before.push('/') } else { before }) + part@.take(j as int),
            decreases part.len() - j,
        {
            push_char(&mut s, part[j]);
            j = j + 1;
            assert(s@ =~= (if i > 0 { before.push('/') } else { before }) + part@.take(j as int));
        }
        assert(part@.take(part.len() as int) =~= part@);
        proof {
            let t = pv.take(i + 1);
            assert(t.drop_last() =~= pv.take(i as int));
            assert(t.last() == part@);
            if i == 0 {
                assert(s@ =~= t[0]);
            }
        }
        i = i + 1;
    }
    assert(pv.take(parts.len() as int) =~= pv);
    s
}

/// Project-root-relative POSIX path of `filename`, or a [`RelRefusal`] saying
/// why there is none. An absolute filename must live under `root`, compared
/// component by component (so `/proj` never claims `/project-x`); a relative one
/// is root-relative already. The result never holds a `..`, `.` or empty segment.
pub fn rel_posix_checked(root: &str, filename: &str) -> (res: Result<String, RelRefusal>)
    ensures
        match res {
            Ok(s) => rel_posix_spec(root@, filename@) == Ok::<Seq<char>, RelRefusal>(s@),
            Err(e) => rel_posix_spec(root@, filename@) == Err::<Seq<char>, RelRefusal>(e),
        },
{
    if filename.is_empty() {
        return Err(RelRefusal::NoFilename);
    }
    if root.is_empty() {
        return Err(RelRefusal::NoRoot);
    }
    let file = posix_chars(filename);
    let root_posix = posix_chars(root);
    let root_eff = effective_root_chars(&root_posix);
    let pieces = if is_abs_chars(&file) {
        let fc = components_of(&file);
        let rc = components_of(&root_eff);
        match strip_prefix_components(&fc, &rc) {
            Some(p) => p,
            None => {
                return Err(RelRefusal::OutsideRoot);
            },
        }
    } else {
        split_pieces(&file)
    };
    assert(rel_pieces(root@, filename@) == Some(pieces_view(pieces@)));
    let parts = match resolve_pieces(&pieces) {
        Some(p) => p,
        None => {
            return Err(RelRefusal::EscapesRoot);
        },
    };
    if parts.len() == 0 {
        return Err(RelRefusal::EmptyPath);
    }
    Ok(join_parts(&parts))
}

/// Project-root-relative POSIX path, or `None` when `filename` cannot be
/// expressed as one; [`rel_posix_checked`] gives the reason behind a `None`.
pub fn rel_posix(root: &str, filename: &str) -> (res: Option<String>)
    ensures
        match res {
            Some(s) => rel_posix_spec(root@, filename@) == Ok::<Seq<char>, RelRefusal>(s@),
            None => rel_posix_spec(root@, filename@) is Err,
        },
{
    match rel_posix_checked(root, filename) {
        Ok(s) => Some(s),
        Err(_) => None,
    }
}

} // verus!
