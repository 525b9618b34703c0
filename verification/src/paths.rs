//! A character-level model of slash-separated paths.
//!
//! Paths move through the library as plain strings with `/` separators.  The
//! spec functions here define what the executable path operations return:
//! a path is read as an optional leading root (`/`) plus the sequence of its
//! non-empty components; `.` components are dropped and `..` pops during
//! normalization, mirroring how the package tree is addressed.

use vstd::prelude::*;
use crate::strutil::{chars_of, string_of};

verus! {

/// A path is absolute when it starts with the separator.
pub open spec fn is_abs(s: Seq<char>) -> bool {
    s.len() > 0 && s[0] == '/'
}

/// The component `.`.
pub open spec fn dot_seg() -> Seq<char> {
    seq!['.']
}

/// The component `..`.
pub open spec fn dotdot_seg() -> Seq<char> {
    seq!['.', '.']
}

/// Components of `s` from position `i` on, with `cur` the partial component
/// read so far: maximal runs of non-separator characters, empties dropped.
pub open spec fn segs_acc(s: Seq<char>, i: int, cur: Seq<char>) -> Seq<Seq<char>>
    decreases s.len() - i,
{
    if i < 0 || i >= s.len() {
        if cur.len() > 0 {
            seq![cur]
        } else {
            Seq::empty()
        }
    } else if s[i] == '/' {
        if cur.len() > 0 {
            seq![cur] + segs_acc(s, i + 1, Seq::empty())
        } else {
            segs_acc(s, i + 1, Seq::empty())
        }
    } else {
        segs_acc(s, i + 1, cur.push(s[i]))
    }
}

/// The components of a path string.
pub open spec fn path_segments(s: Seq<char>) -> Seq<Seq<char>> {
    segs_acc(s, 0, Seq::empty())
}

/// One normalization step per component, left to right: `.` is dropped,
/// `..` pops the last kept component (or nothing at the top), anything
/// else is kept.
pub open spec fn norm_fold(acc: Seq<Seq<char>>, segs: Seq<Seq<char>>, i: int) -> Seq<Seq<char>>
    decreases segs.len() - i,
{
    if i < 0 || i >= segs.len() {
        acc
    } else {
        let h = segs[i];
        let acc2 = if h == dot_seg() {
            acc
        } else if h == dotdot_seg() {
            if acc.len() > 0 {
                acc.drop_last()
            } else {
                acc
            }
        } else {
            acc.push(h)
        };
        norm_fold(acc2, segs, i + 1)
    }
}

/// The components a path keeps after normalization.
pub open spec fn normal_segments(s: Seq<char>) -> Seq<Seq<char>> {
    norm_fold(Seq::empty(), path_segments(s), 0)
}

/// The first `i` components joined with `/`.
pub open spec fn join_upto(segs: Seq<Seq<char>>, i: int) -> Seq<char>
    decreases i,
{
    if i <= 0 {
        Seq::empty()
    } else if i == 1 {
        segs[0]
    } else {
        join_upto(segs, i - 1) + seq!['/'] + segs[i - 1]
    }
}

/// Components rendered back into a path string, with a leading `/` when the
/// path is absolute.
pub open spec fn render_path(segs: Seq<Seq<char>>, abs: bool) -> Seq<char> {
    if abs {
        seq!['/'] + join_upto(segs, segs.len() as int)
    } else {
        join_upto(segs, segs.len() as int)
    }
}

/// What `normalize_path` returns: the path's normalized components rendered
/// back, keeping whether the path was absolute.
pub open spec fn spec_normalize(s: Seq<char>) -> Seq<char> {
    render_path(normal_segments(s), is_abs(s))
}

/// The views of a sequence of character vectors.
pub open spec fn views_of(v: Seq<Vec<char>>) -> Seq<Seq<char>> {
    v.map_values(|x: Vec<char>| x@)
}

pub proof fn lemma_views_push(v: Seq<Vec<char>>, x: Vec<char>)
    ensures
        views_of(v.push(x)) =~= views_of(v).push(x@),
{
}

pub proof fn lemma_views_drop_last(v: Seq<Vec<char>>)
    requires
        v.len() > 0,
    ensures
        views_of(v.drop_last()) =~= views_of(v).drop_last(),
{
}

/// A fresh copy of a character vector.
pub fn clone_chars(v: &Vec<char>) -> (r: Vec<char>)
    ensures
        r@ == v@,
{
    let mut out: Vec<char> = Vec::new();
    let n = v.len();
    let mut i: usize = 0;
    while i < n
        invariant
            n == v.len(),
            i <= n,
            out@ =~= v@.take(i as int),
        decreases n - i,
    {
        out.push(v[i]);
        i += 1;
    }
    proof {
        assert(out@ =~= v@);
    }
    out
}

/// Split a character vector into its path components.
pub fn split_segments(cs: &Vec<char>) -> (r: Vec<Vec<char>>)
    ensures
        views_of(r@) =~= path_segments(cs@),
{
    let mut segs: Vec<Vec<char>> = Vec::new();
    let mut cur: Vec<char> = Vec::new();
    let n = cs.len();
    let mut i: usize = 0;
    proof {
        assert(views_of(segs@) =~= Seq::<Seq<char>>::empty());
        assert(path_segments(cs@) =~= views_of(segs@) + segs_acc(cs@, 0, cur@));
    }
    while i < n
        invariant
            n == cs.len(),
            i <= n,
            path_segments(cs@) =~= views_of(segs@) + segs_acc(cs@, i as int, cur@),
        decreases n - i,
    {
        let c = cs[i];
        if c == '/' {
            if cur.len() > 0 {
                proof {
                    lemma_views_push(segs@, cur);
                    assert(segs_acc(cs@, i as int, cur@) =~= seq![cur@] + segs_acc(
                        cs@,
                        i as int + 1,
                        Seq::empty(),
                    ));
                    assert(views_of(segs@) + segs_acc(cs@, i as int, cur@) =~= views_of(
                        segs@.push(cur),
                    ) + segs_acc(cs@, i as int + 1, Seq::empty()));
                }
                segs.push(cur);
                cur = Vec::new();
            } else {
                proof {
                    assert(cur@ =~= Seq::<char>::empty());
                    assert(segs_acc(cs@, i as int, cur@) == segs_acc(
                        cs@,
                        i as int + 1,
                        Seq::<char>::empty(),
                    ));
                }
            }
        } else {
            let ghost prev: Seq<char> = cur@;
            cur.push(c);
            proof {
                assert(segs_acc(cs@, i as int, prev) == segs_acc(cs@, i as int + 1, prev.push(c)));
                assert(cur@ == prev.push(c));
            }
        }
        i += 1;
    }
    if cur.len() > 0 {
        proof {
            lemma_views_push(segs@, cur);
            assert(views_of(segs@) + segs_acc(cs@, n as int, cur@) =~= views_of(segs@.push(cur)));
        }
        segs.push(cur);
    } else {
        proof {
            assert(views_of(segs@) + segs_acc(cs@, n as int, cur@) =~= views_of(segs@));
        }
    }
    segs
}

/// Does this component read `.`?
pub fn is_dot(v: &Vec<char>) -> (r: bool)
    ensures
        r == (v@ == dot_seg()),
{
    let r = v.len() == 1 && v[0] == '.';
    proof {
        if r {
            assert(v@ =~= dot_seg());
        }
    }
    r
}

/// Does this component read `..`?
pub fn is_dotdot(v: &Vec<char>) -> (r: bool)
    ensures
        r == (v@ == dotdot_seg()),
{
    let r = v.len() == 2 && v[0] == '.' && v[1] == '.';
    proof {
        if r {
            assert(v@ =~= dotdot_seg());
        }
    }
    r
}

/// Apply the normalization fold to a component list.
pub fn normalize_segments(segs: &Vec<Vec<char>>) -> (r: Vec<Vec<char>>)
    ensures
        views_of(r@) =~= norm_fold(Seq::empty(), views_of(segs@), 0),
{
    let mut acc: Vec<Vec<char>> = Vec::new();
    let n = segs.len();
    let mut i: usize = 0;
    proof {
        assert(views_of(acc@) =~= Seq::<Seq<char>>::empty());
    }
    while i < n
        invariant
            n == segs.len(),
            i <= n,
            norm_fold(Seq::empty(), views_of(segs@), 0) =~= norm_fold(
                views_of(acc@),
                views_of(segs@),
                i as int,
            ),
        decreases n - i,
    {
        let ghost all: Seq<Seq<char>> = views_of(segs@);
        let ghost before: Seq<Seq<char>> = views_of(acc@);
        proof {
            assert(all[i as int] == segs@[i as int]@);
        }
        let s = &segs[i];
        if is_dot(s) {
            proof {
                assert(norm_fold(before, all, i as int) == norm_fold(before, all, i as int + 1));
            }
        } else if is_dotdot(s) {
            if acc.len() > 0 {
                proof {
                    lemma_views_drop_last(acc@);
                    assert(norm_fold(before, all, i as int) == norm_fold(
                        before.drop_last(),
                        all,
                        i as int + 1,
                    ));
                }
                acc.pop();
            } else {
                proof {
                    assert(before.len() == 0);
                    assert(norm_fold(before, all, i as int) == norm_fold(before, all, i as int + 1));
                }
            }
        } else {
            let copy = clone_chars(s);
            proof {
                lemma_views_push(acc@, copy);
                assert(copy@ == all[i as int]);
                assert(norm_fold(before, all, i as int) == norm_fold(
                    before.push(all[i as int]),
                    all,
                    i as int + 1,
                ));
                assert(views_of(acc@.push(copy)) =~= before.push(all[i as int]));
            }
            acc.push(copy);
        }
        i += 1;
    }
    acc
}

/// Render a component list back into a string.
pub fn render_segments(segs: &Vec<Vec<char>>, abs: bool) -> (r: String)
    ensures
        r@ == render_path(views_of(segs@), abs),
{
    let mut out: Vec<char> = Vec::new();
    if abs {
        out.push('/');
    }
    let ghost prefix: Seq<char> = out@;
    let n = segs.len();
    let mut i: usize = 0;
    while i < n
        invariant
            n == segs.len(),
            i <= n,
            out@ =~= prefix + join_upto(views_of(segs@), i as int),
        decreases n - i,
    {
        if i > 0 {
            out.push('/');
        }
        let s = &segs[i];
        let m = s.len();
        let ghost before: Seq<char> = out@;
        let mut k: usize = 0;
        while k < m
            invariant
                m == s.len(),
                k <= m,
                out@ =~= before + s@.take(k as int),
            decreases m - k,
        {
            out.push(s[k]);
            k += 1;
        }
        proof {
            assert(views_of(segs@)[i as int] == segs@[i as int]@);
            assert(s@.take(m as int) =~= s@);
            if i == 0 {
                assert(out@ =~= prefix + join_upto(views_of(segs@), 1));
            } else {
                assert(out@ =~= prefix + join_upto(views_of(segs@), i as int + 1));
            }
        }
        i += 1;
    }
    string_of(&out)
}

/// Normalize a path: drop `.` components, let `..` pop the previous
/// component (or nothing at the top), and collapse repeated separators.
/// Separators are `/`; a leading `/` marks the path absolute and is kept.
pub fn normalize_path(path: &str) -> (r: String)
    ensures
        r@ == spec_normalize(path@),
{
    let cs = chars_of(path);
    let abs = cs.len() > 0 && cs[0] == '/';
    let segs = split_segments(&cs);
    let norm = normalize_segments(&segs);
    render_segments(&norm, abs)
}

/// What joining `b` onto `a` yields: `b` itself when `b` is absolute or `a`
/// is empty, otherwise `a`, one separator, and `b`.
pub open spec fn spec_join(a: Seq<char>, b: Seq<char>) -> Seq<char> {
    if is_abs(b) {
        b
    } else if a.len() == 0 {
        b
    } else if a[a.len() - 1] == '/' {
        a + b
    } else {
        a + seq!['/'] + b
    }
}

/// Join a path onto a base path.
pub fn join_path(a: &str, b: &str) -> (r: String)
    ensures
        r@ == spec_join(a@, b@),
{
    let ca = chars_of(a);
    let cb = chars_of(b);
    if (cb.len() > 0 && cb[0] == '/') || ca.len() == 0 {
        return string_of(&cb);
    }
    let mut out = clone_chars(&ca);
    if out[out.len() - 1] != '/' {
        out.push('/');
    }
    let ghost prefix: Seq<char> = out@;
    let n = cb.len();
    let mut i: usize = 0;
    while i < n
        invariant
            n == cb.len(),
            i <= n,
            out@ =~= prefix + cb@.take(i as int),
        decreases n - i,
    {
        out.push(cb[i]);
        i += 1;
    }
    proof {
        assert(cb@.take(n as int) =~= cb@);
        assert(out@ =~= spec_join(a@, b@));
    }
    string_of(&out)
}

/// What the parent of a path is: the path without its final component, or
/// nothing when there is no component to drop.
pub open spec fn spec_parent(s: Seq<char>) -> Option<Seq<char>> {
    let segs = path_segments(s);
    if segs.len() == 0 {
        None
    } else {
        Some(render_path(segs.drop_last(), is_abs(s)))
    }
}

/// The path without its final component, rendered from its components.
pub fn parent_of(p: &str) -> (r: Option<String>)
    ensures
        match r {
            Some(v) => spec_parent(p@) == Some(v@),
            None => spec_parent(p@) is None,
        },
{
    let cs = chars_of(p);
    let abs = cs.len() > 0 && cs[0] == '/';
    let mut segs = split_segments(&cs);
    if segs.len() == 0 {
        return None;
    }
    proof {
        lemma_views_drop_last(segs@);
    }
    segs.pop();
    Some(render_segments(&segs, abs))
}

/// The index of the last `.` strictly before position `i`, or `-1`.
pub open spec fn last_dot(f: Seq<char>, i: int) -> int
    decreases i,
{
    if i <= 0 {
        -1
    } else if f[i - 1] == '.' {
        i - 1
    } else {
        last_dot(f, i - 1)
    }
}

/// What the extension of a file name is: the part after the last `.`, unless
/// the only `.` leads the name.
pub open spec fn spec_ext_of_name(f: Seq<char>) -> Option<Seq<char>> {
    let j = last_dot(f, f.len() as int);
    if j <= 0 {
        None
    } else {
        Some(f.skip(j + 1))
    }
}

/// What the extension of a path is: the extension of its final component,
/// and nothing when the path has no component or ends in `..`.
pub open spec fn spec_extension(s: Seq<char>) -> Option<Seq<char>> {
    let segs = path_segments(s);
    if segs.len() == 0 {
        None
    } else if segs.last() == dotdot_seg() {
        None
    } else {
        spec_ext_of_name(segs.last())
    }
}

/// The index of the last `.` of a component, if any.
fn last_dot_idx(f: &Vec<char>) -> (r: Option<usize>)
    ensures
        match r {
            Some(j) => last_dot(f@, f@.len() as int) == j && j < f@.len(),
            None => last_dot(f@, f@.len() as int) == -1,
        },
{
    let mut i = f.len();
    while i > 0
        invariant
            i <= f.len(),
            last_dot(f@, f@.len() as int) == last_dot(f@, i as int),
        decreases i,
    {
        if f[i - 1] == '.' {
            return Some(i - 1);
        }
        i -= 1;
    }
    None
}

/// The extension of a path's final component.
pub fn extension_of(p: &str) -> (r: Option<String>)
    ensures
        match r {
            Some(v) => spec_extension(p@) == Some(v@),
            None => spec_extension(p@) is None,
        },
{
    let cs = chars_of(p);
    let segs = split_segments(&cs);
    if segs.len() == 0 {
        return None;
    }
    proof {
        assert(views_of(segs@)[segs@.len() - 1] == segs@[segs@.len() - 1]@);
        assert(views_of(segs@).last() == segs@[segs@.len() - 1]@);
    }
    let f = &segs[segs.len() - 1];
    if is_dotdot(f) {
        return None;
    }
    match last_dot_idx(f) {
        None => None,
        Some(j) => {
            if j == 0 {
                None
            } else {
                let m = f.len();
                let mut out: Vec<char> = Vec::new();
                let mut k: usize = j + 1;
                while k < m
                    invariant
                        m == f.len(),
                        j + 1 <= k <= m,
                        out@ =~= f@.subrange(j + 1, k as int),
                    decreases m - k,
                {
                    out.push(f[k]);
                    k += 1;
                }
                proof {
                    assert(out@ =~= f@.skip(j + 1));
                }
                Some(string_of(&out))
            }
        },
    }
}

/// What replacing a path's extension yields: the final component keeps its
/// stem and takes `.e` (or drops the extension when `e` is empty); a path
/// without a component, or ending in `..`, is unchanged.
pub open spec fn spec_with_extension(s: Seq<char>, e: Seq<char>) -> Seq<char> {
    let segs = path_segments(s);
    if segs.len() == 0 || segs.last() == dotdot_seg() {
        render_path(segs, is_abs(s))
    } else {
        let f = segs.last();
        let j = last_dot(f, f.len() as int);
        let stem = if j <= 0 {
            f
        } else {
            f.take(j)
        };
        let name = if e.len() == 0 {
            stem
        } else {
            stem + seq!['.'] + e
        };
        render_path(segs.update(segs.len() - 1, name), is_abs(s))
    }
}

/// Replace the extension of a path's final component.
pub fn with_extension(p: &str, e: &str) -> (r: String)
    ensures
        r@ == spec_with_extension(p@, e@),
{
    let cs = chars_of(p);
    let abs = cs.len() > 0 && cs[0] == '/';
    let mut segs = split_segments(&cs);
    if segs.len() == 0 {
        return render_segments(&segs, abs);
    }
    proof {
        assert(views_of(segs@).last() == segs@[segs@.len() - 1]@);
    }
    let ghost old_segs: Seq<Vec<char>> = segs@;
    let ghost fv: Seq<char> = views_of(old_segs).last();
    let last = segs.len() - 1;
    if is_dotdot(&segs[last]) {
        return render_segments(&segs, abs);
    }
    let ghost jj: int = last_dot(fv, fv.len() as int);
    let mut name: Vec<char>;
    match last_dot_idx(&segs[last]) {
        Some(j) if j > 0 => {
            let f = &segs[last];
            let m = f.len();
            proof {
                assert(f@ == fv);
                assert(jj == j && j < m);
            }
            let mut stem: Vec<char> = Vec::new();
            let mut k: usize = 0;
            while k < j
                invariant
                    m == f.len(),
                    j < m,
                    k <= j,
                    stem@ =~= f@.subrange(0, k as int),
                decreases j - k,
            {
                stem.push(f[k]);
                k += 1;
            }
            proof {
                assert(stem@ =~= fv.take(j as int));
            }
            name = stem;
        },
        _ => {
            proof {
                assert(jj <= 0);
            }
            name = clone_chars(&segs[last]);
        },
    }
    let ghost stem_v: Seq<char> = name@;
    proof {
        assert(stem_v == if jj <= 0 { fv } else { fv.take(jj) });
    }
    let ec = chars_of(e);
    if ec.len() > 0 {
        name.push('.');
        let n = ec.len();
        let ghost base: Seq<char> = name@;
        proof {
            assert(base =~= stem_v + seq!['.']);
        }
        let mut k: usize = 0;
        while k < n
            invariant
                n == ec.len(),
                k <= n,
                name@ =~= base + ec@.take(k as int),
            decreases n - k,
        {
            name.push(ec[k]);
            k += 1;
        }
        proof {
            assert(ec@.take(n as int) =~= ec@);
            assert(name@ =~= stem_v + seq!['.'] + e@);
        }
    }
    proof {
        assert(views_of(old_segs.update(old_segs.len() - 1, name)) =~= views_of(old_segs).update(
            old_segs.len() - 1,
            name@,
        ));
    }
    segs.set(last, name);
    let r = render_segments(&segs, abs);
    proof {
        assert(views_of(segs@) == views_of(old_segs).update(old_segs.len() - 1, name@));
    }
    r
}

/// Do the components of `p` start with the components of `b`?
pub open spec fn segs_start_with(p: Seq<Seq<char>>, b: Seq<Seq<char>>) -> bool {
    b.len() <= p.len() && p.take(b.len() as int) == b
}

/// What stripping a base path off a path yields: the components left after
/// the base's components, when the base's root and components lead the path.
pub open spec fn spec_strip_prefix(p: Seq<char>, base: Seq<char>) -> Option<Seq<char>> {
    let ps = path_segments(p);
    let bs = path_segments(base);
    if is_abs(base) && !is_abs(p) {
        None
    } else if !is_abs(base) && is_abs(p) && bs.len() > 0 {
        None
    } else if segs_start_with(ps, bs) {
        Some(render_path(ps.skip(bs.len() as int), is_abs(p) && !is_abs(base) && bs.len() == 0))
    } else {
        None
    }
}

/// Strip a leading base path off a path, by components.
#[verifier::loop_isolation(false)]
pub fn strip_prefix_path(p: &str, base: &str) -> (r: Option<String>)
    ensures
        match r {
            Some(v) => spec_strip_prefix(p@, base@) == Some(v@),
            None => spec_strip_prefix(p@, base@) is None,
        },
{
    let pc = chars_of(p);
    let bc = chars_of(base);
    let p_abs = pc.len() > 0 && pc[0] == '/';
    let b_abs = bc.len() > 0 && bc[0] == '/';
    let ps = split_segments(&pc);
    let bs = split_segments(&bc);
    if b_abs && !p_abs {
        return None;
    }
    if !b_abs && p_abs && bs.len() > 0 {
        return None;
    }
    if bs.len() > ps.len() {
        return None;
    }
    let k = bs.len();
    let mut i: usize = 0;
    while i < k
        invariant
            k == bs.len(),
            k <= ps.len(),
            i <= k,
            forall|t: int| 0 <= t < i ==> views_of(ps@)[t] == views_of(bs@)[t],
        decreases k - i,
    {
        proof {
            assert(views_of(ps@)[i as int] == ps@[i as int]@);
            assert(views_of(bs@)[i as int] == bs@[i as int]@);
        }
        if !crate::strutil::chars_eq(&ps[i], &bs[i]) {
            proof {
                assert(!segs_start_with(views_of(ps@), views_of(bs@))) by {
                    if segs_start_with(views_of(ps@), views_of(bs@)) {
                        assert(views_of(ps@).take(k as int) == views_of(bs@));
                        assert(views_of(ps@).take(k as int)[i as int] == views_of(ps@)[i as int]);
                        assert(views_of(ps@)[i as int] == ps@[i as int]@);
                        assert(views_of(bs@)[i as int] == bs@[i as int]@);
                        assert(false);
                    }
                }
                assert(views_of(ps@) == path_segments(p@));
                assert(views_of(bs@) == path_segments(base@));
            }
            return None;
        }
        i += 1;
    }
    proof {
        assert(views_of(ps@).take(k as int) =~= views_of(bs@));
    }
    let n = ps.len();
    let mut rest: Vec<Vec<char>> = Vec::new();
    let mut t: usize = k;
    while t < n
        invariant
            n == ps.len(),
            k <= t <= n,
            views_of(rest@) =~= views_of(ps@).subrange(k as int, t as int),
        decreases n - t,
    {
        let copy = clone_chars(&ps[t]);
        proof {
            lemma_views_push(rest@, copy);
            assert(views_of(ps@)[t as int] == ps@[t as int]@);
        }
        rest.push(copy);
        t += 1;
    }
    proof {
        assert(views_of(rest@) =~= views_of(ps@).skip(k as int));
    }
    Some(render_segments(&rest, p_abs && !b_abs && k == 0))
}

/// What the package-root form of a path is: each component preceded by one
/// separator, so the result addresses the package root.
pub open spec fn spec_path_prefix(s: Seq<char>) -> Seq<char> {
    seq!['/'] + join_upto(path_segments(s), path_segments(s).len() as int)
}

/// Prefix a package-relative path with a separator, collapsing repeats.
pub fn path_prefix(p: &str) -> (r: String)
    ensures
        r@ == spec_path_prefix(p@),
{
    let cs = chars_of(p);
    let segs = split_segments(&cs);
    render_segments(&segs, true)
}

/// How many components of a chapter directory count toward nesting: the
/// `.` components are dropped.
pub open spec fn spec_dir_depth(s: Seq<char>) -> int {
    path_segments(s).filter(|x: Seq<char>| x != dot_seg()).len() as int
}

/// What the stylesheet path looks like from `k` levels down: one `../` per
/// level, then the stylesheet's name.
pub open spec fn spec_updirs(k: int) -> Seq<char>
    decreases k,
{
    if k <= 0 {
        Seq::empty()
    } else {
        seq!['.', '.', '/'] + spec_updirs(k - 1)
    }
}

/// The stylesheet's path relative to a chapter directory.
pub fn stylesheet_rel_path(dir: &str) -> (r: String)
    ensures
        r@ == spec_updirs(spec_dir_depth(dir@)) + "stylesheet.css"@,
{
    let cs = chars_of(dir);
    let segs = split_segments(&cs);
    let n = segs.len();
    let mut depth: usize = 0;
    let mut i: usize = 0;
    proof {
        assert(views_of(segs@).take(0int).filter(|x: Seq<char>| x != dot_seg()) =~= Seq::<
            Seq<char>,
        >::empty());
    }
    while i < n
        invariant
            n == segs.len(),
            i <= n,
            depth <= i,
            depth == views_of(segs@).take(i as int).filter(|x: Seq<char>| x != dot_seg()).len(),
        decreases n - i,
    {
        proof {
            assert(views_of(segs@).take(i as int + 1).drop_last() =~= views_of(segs@).take(
                i as int,
            ));
            reveal_with_fuel(Seq::filter, 2);
            assert(views_of(segs@)[i as int] == segs@[i as int]@);
        }
        if !is_dot(&segs[i]) {
            depth += 1;
        }
        i += 1;
    }
    proof {
        assert(views_of(segs@).take(n as int) =~= views_of(segs@));
    }
    let mut out: Vec<char> = Vec::new();
    let mut k: usize = 0;
    while k < depth
        invariant
            k <= depth,
            out@ =~= spec_updirs(k as int),
        decreases depth - k,
    {
        proof {
            lemma_updirs_snoc(k as int + 1);
        }
        out.push('.');
        out.push('.');
        out.push('/');
        k += 1;
    }
    let name = chars_of("stylesheet.css");
    let m = name.len();
    let ghost base: Seq<char> = out@;
    let mut t: usize = 0;
    while t < m
        invariant
            m == name.len(),
            t <= m,
            out@ =~= base + name@.take(t as int),
        decreases m - t,
    {
        out.push(name[t]);
        t += 1;
    }
    proof {
        assert(name@.take(m as int) =~= name@);
    }
    string_of(&out)
}

/// Appending one more `../` on the right equals prepending it on the left.
proof fn lemma_updirs_snoc(k: int)
    requires
        k > 0,
    ensures
        spec_updirs(k) =~= spec_updirs(k - 1) + seq!['.', '.', '/'],
    decreases k,
{
    if k > 1 {
        lemma_updirs_snoc(k - 1);
    }
}

} // verus!
