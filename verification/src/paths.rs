//! Path equality as the standard library's `Path` compares paths on Unix:
//! by their components, so that repeated separators, `.` segments after the
//! start and trailing separators make no difference.
use vstd::prelude::*;
use crate::text::{chars_eq, chars_of, vviews};

verus! {

/// The segments of `s` between slashes, empty ones included.
pub open spec fn slash_segments(s: Seq<char>) -> Seq<Seq<char>>
    decreases s.len(),
{
    if s.len() == 0 {
        seq![Seq::empty()]
    } else {
        let rest = slash_segments(s.drop_last());
        if s.last() == '/' {
            rest.push(Seq::empty())
        } else {
            rest.update(rest.len() - 1, rest.last().push(s.last()))
        }
    }
}

/// The segments that name something: neither empty nor `.`.
pub open spec fn named_segments(segs: Seq<Seq<char>>) -> Seq<Seq<char>>
    decreases segs.len(),
{
    if segs.len() == 0 {
        Seq::empty()
    } else {
        let rest = named_segments(segs.drop_last());
        let last = segs.last();
        if last.len() == 0 || last == seq!['.'] {
            rest
        } else {
            rest.push(last)
        }
    }
}

/// The components of a path: whether it is rooted, whether it starts with a
/// `.` component, and its named segments.
pub open spec fn path_components(s: Seq<char>) -> (bool, bool, Seq<Seq<char>>) {
    let rooted = s.len() > 0 && s[0] == '/';
    let leading_dot = !rooted && s.len() > 0 && s[0] == '.' && (s.len() == 1 || s[1] == '/');
    (rooted, leading_dot, named_segments(slash_segments(s)))
}

/// `a` and `b` name the same path, as `Path`'s `==` decides.
pub open spec fn same_path(a: Seq<char>, b: Seq<char>) -> bool {
    path_components(a) == path_components(b)
}

proof fn lemma_slash_segments_nonempty(s: Seq<char>)
    ensures
        slash_segments(s).len() > 0,
    decreases s.len(),
{
    if s.len() > 0 {
        lemma_slash_segments_nonempty(s.drop_last());
    }
}

fn slash_segments_exec(s: &Vec<char>) -> (r: Vec<Vec<char>>)
    ensures
        vviews(r@) == slash_segments(s@),
{
    let mut r: Vec<Vec<char>> = Vec::new();
    let mut cur: Vec<char> = Vec::new();
    let mut i: usize = 0;
    assert(s@.take(0) =~= Seq::<char>::empty());
    assert(vviews(r@).push(cur@) =~= seq![Seq::<char>::empty()]);
    while i < s.len()
        invariant
            i <= s.len(),
            vviews(r@).push(cur@) == slash_segments(s@.take(i as int)),
        decreases s.len() - i,
    {
        proof {
            assert(s@.take(i + 1).drop_last() =~= s@.take(i as int));
            assert(s@.take(i + 1).last() == s@[i as int]);
            lemma_slash_segments_nonempty(s@.take(i as int));
        }
        let ghost before = vviews(r@);
        if s[i] == '/' {
            let done = cur;
            r.push(done);
            cur = Vec::new();
            assert(vviews(r@) =~= before.push(done@));
            assert(vviews(r@).push(cur@) =~= before.push(done@).push(Seq::<char>::empty()));
        } else {
            let ghost c0 = cur@;
            cur.push(s[i]);
            assert(vviews(r@).push(cur@) =~= before.push(c0).update(
                before.len() as int,
                c0.push(s@[i as int]),
            ));
        }
        i += 1;
    }
    assert(s@.take(i as int) =~= s@);
    let ghost before = vviews(r@);
    r.push(cur);
    assert(vviews(r@) =~= slash_segments(s@));
    r
}

fn named_segments_exec(segs: &Vec<Vec<char>>) -> (r: Vec<Vec<char>>)
    ensures
        vviews(r@) == named_segments(vviews(segs@)),
{
    let ghost sv = vviews(segs@);
    let mut r: Vec<Vec<char>> = Vec::new();
    let mut i: usize = 0;
    let mut dot: Vec<char> = Vec::new();
    dot.push('.');
    assert(sv.take(0) =~= Seq::<Seq<char>>::empty());
    assert(vviews(r@) =~= Seq::<Seq<char>>::empty());
    while i < segs.len()
        invariant
            i <= segs.len(),
            sv == vviews(segs@),
            dot@ == seq!['.'],
            vviews(r@) == named_segments(sv.take(i as int)),
        decreases segs.len() - i,
    {
        proof {
            assert(sv.take(i + 1).drop_last() =~= sv.take(i as int));
            assert(sv.take(i + 1).last() == segs@[i as int]@);
        }
        if segs[i].len() == 0 || chars_eq(&segs[i], &dot) {
        } else {
            let ghost before = vviews(r@);
            r.push(segs[i].clone());
            assert(vviews(r@) =~= before.push(segs@[i as int]@));
        }
        i += 1;
    }
    assert(sv.take(i as int) =~= sv);
    r
}

fn segments_eq(a: &Vec<Vec<char>>, b: &Vec<Vec<char>>) -> (r: bool)
    ensures
        r == (vviews(a@) == vviews(b@)),
{
    if a.len() != b.len() {
        assert(vviews(a@).len() != vviews(b@).len());
        return false;
    }
    let mut i: usize = 0;
    while i < a.len()
        invariant
            a.len() == b.len(),
            i <= a.len(),
            forall|k: int| 0 <= k < i ==> vviews(a@)[k] == vviews(b@)[k],
        decreases a.len() - i,
    {
        if !chars_eq(&a[i], &b[i]) {
            assert(vviews(a@)[i as int] != vviews(b@)[i as int]);
            return false;
        }
        i += 1;
    }
    assert(vviews(a@) =~= vviews(b@));
    true
}

pub(crate) fn components_exec(s: &Vec<char>) -> (r: (bool, bool, Vec<Vec<char>>))
    ensures
        (r.0, r.1, vviews(r.2@)) == path_components(s@),
{
    let rooted = s.len() > 0 && s[0] == '/';
    let leading_dot = !rooted && s.len() > 0 && s[0] == '.' && (s.len() == 1 || s[1] == '/');
    let segs = slash_segments_exec(s);
    let named = named_segments_exec(&segs);
    (rooted, leading_dot, named)
}

/// Whether `a` and `b` name the same path: `Path`'s `==`, which compares
/// components.
pub fn paths_equal(a: &str, b: &str) -> (r: bool)
    ensures
        r == same_path(a@, b@),
{
    let av = chars_of(a);
    let bv = chars_of(b);
    let ca = components_exec(&av);
    let cb = components_exec(&bv);
    ca.0 == cb.0 && ca.1 == cb.1 && segments_eq(&ca.2, &cb.2)
}

/// `d` holds a path that names the same path as `p`.
pub open spec fn has_path(d: Seq<Seq<char>>, p: Seq<char>) -> bool {
    exists|i: int| 0 <= i < d.len() && same_path(#[trigger] d[i], p)
}

/// Whether `paths` holds a path that names the same path as `p`, as a map
/// or set keyed by `PathBuf` finds it.
pub fn contains_path(paths: &Vec<String>, p: &str) -> (r: bool)
    ensures
        r == has_path(crate::text::views(paths@), p@),
{
    let ghost pv = crate::text::views(paths@);
    let mut k: usize = 0;
    while k < paths.len()
        invariant
            k <= paths.len(),
            pv == crate::text::views(paths@),
            forall|j: int| 0 <= j < k ==> !same_path(#[trigger] pv[j], p@),
        decreases paths.len() - k,
    {
        assert(pv[k as int] == paths@[k as int]@);
        if paths_equal(paths[k].as_str(), p) {
            return true;
        }
        k += 1;
    }
    false
}

/// `path` appended to `base` as `PathBuf::push` does: an absolute `path`
/// replaces `base`; otherwise a separator goes between them unless `base` is
/// empty or already ends with one.
pub open spec fn joined(base: Seq<char>, path: Seq<char>) -> Seq<char> {
    if path.len() > 0 && path[0] == '/' {
        path
    } else if base.len() == 0 || base.last() == '/' {
        base + path
    } else {
        base + seq!['/'] + path
    }
}

/// Where a configured path points: itself when absolute, else relative to the
/// working directory `cwd` when it is known, else `fallback`.
pub open spec fn resolved(path: Seq<char>, cwd: Option<Seq<char>>, fallback: Seq<char>) -> Seq<char> {
    if path.len() > 0 && path[0] == '/' {
        path
    } else {
        match cwd {
            Some(c) => joined(c, path),
            None => fallback,
        }
    }
}

/// Where a configured path points: itself when absolute, else joined to the
/// working directory `cwd` when it is known, else `fallback`.
pub fn resolve_against_cwd(path: &str, cwd: Option<&str>, fallback: &str) -> (r: String)
    ensures
        r@ == resolved(
            path@,
            match cwd {
                Some(c) => Some(c@),
                None => None,
            },
            fallback@,
        ),
{
    let pv = chars_of(path);
    if pv.len() > 0 && pv[0] == '/' {
        return crate::text::string_of(&pv);
    }
    match cwd {
        Some(c) => join_path(c, path),
        None => crate::text::owned(fallback),
    }
}

/// `path` joined to `base`, as `Path::join` joins them.
pub fn join_path(base: &str, path: &str) -> (r: String)
    ensures
        r@ == joined(base@, path@),
{
    let pv = chars_of(path);
    if pv.len() > 0 && pv[0] == '/' {
        return crate::text::string_of(&pv);
    }
    let mut out = chars_of(base);
    if out.len() > 0 && out[out.len() - 1] != '/' {
        out.push('/');
    }
    crate::text::push_all(&mut out, &pv);
    proof {
        let bv = base@;
        if bv.len() > 0 && bv.last() != '/' {
            assert(out@ =~= bv + seq!['/'] + path@);
        } else {
            assert(out@ =~= bv + path@);
        }
    }
    crate::text::string_of(&out)
}


/// Where the body of a path starts: after its root or its leading `.`.
pub open spec fn body_start(s: Seq<char>) -> nat {
    let (rooted, leading_dot, _) = path_components(s);
    if rooted || leading_dot {
        1
    } else {
        0
    }
}

/// The position of the last `/` of `s` at or after `start`.
pub open spec fn last_slash(s: Seq<char>, start: nat) -> Option<nat>
    decreases s.len(),
{
    if s.len() <= start {
        None
    } else if s.last() == '/' {
        Some((s.len() - 1) as nat)
    } else {
        last_slash(s.drop_last(), start)
    }
}

/// The last chunk of the body of `s` (which starts at `start`): its length,
/// the `/` before it included, and its text.
pub open spec fn last_chunk(s: Seq<char>, start: nat) -> (nat, Seq<char>) {
    match last_slash(s, start) {
        Some(i) => ((s.len() - i) as nat, s.skip(i + 1int)),
        None => ((s.len() - start) as nat, s.skip(start as int)),
    }
}

/// `s` without the chunks at the end of its body that name nothing (empty
/// or `.`).
pub open spec fn trim_unnamed_back(s: Seq<char>, start: nat) -> Seq<char>
    decreases s.len(),
{
    if s.len() <= start {
        s
    } else {
        let (size, seg) = last_chunk(s, start);
        if (seg.len() == 0 || seg == seq!['.']) && 0 < size <= s.len() {
            trim_unnamed_back(s.take(s.len() - size), start)
        } else {
            s
        }
    }
}

/// The parent of a path, as `Path::parent` gives it: the path without its
/// last component, trailing separators and `.` chunks removed; `None` for an
/// empty path and for a root.
pub open spec fn parent_of(s: Seq<char>) -> Option<Seq<char>> {
    let start = body_start(s);
    let t = trim_unnamed_back(s, start);
    if t.len() > start {
        let (size, _) = last_chunk(t, start);
        Some(trim_unnamed_back(t.take(t.len() - size), start))
    } else if path_components(s).1 {
        Some(Seq::empty())
    } else {
        None
    }
}

proof fn lemma_last_slash(s: Seq<char>, start: nat)
    ensures
        last_slash(s, start) matches Some(i) ==> start <= i < s.len() && s[i as int] == '/'
            && forall|j: int| i < j < s.len() ==> s[j] != '/',
        last_slash(s, start) is None ==> forall|j: int| start <= j < s.len() ==> s[j] != '/',
    decreases s.len(),
{
    if s.len() > start && s.last() != '/' {
        let t = s.drop_last();
        lemma_last_slash(t, start);
        assert forall|j: int| 0 <= j < t.len() implies t[j] == s[j] by {}
        match last_slash(t, start) {
            Some(i) => {
                assert forall|j: int| i < j < s.len() implies s[j] != '/' by {
                    if j < t.len() {
                        assert(t[j] == s[j]);
                    }
                }
            },
            None => {
                assert forall|j: int| start <= j < s.len() implies s[j] != '/' by {
                    if j < t.len() {
                        assert(t[j] == s[j]);
                    }
                }
            },
        }
    }
}

/// The position of the last `/` among the first `n` characters of `s`, at
/// or after `start`.
fn last_slash_exec(s: &Vec<char>, n: usize, start: usize) -> (r: Option<usize>)
    requires
        n <= s.len(),
    ensures
        r == match last_slash(s@.take(n as int), start as nat) {
            Some(i) => Some(i as usize),
            None => None::<usize>,
        },
{
    let mut k: usize = n;
    proof {
        lemma_last_slash(s@.take(n as int), start as nat);
    }
    while k > start
        invariant
            k <= n <= s.len(),
            last_slash(s@.take(n as int), start as nat) == last_slash(s@.take(k as int), start as nat),
        decreases k,
    {
        assert(s@.take(k as int).last() == s@[k - 1]);
        if s[k - 1] == '/' {
            return Some(k - 1);
        }
        assert(s@.take(k as int).drop_last() =~= s@.take(k - 1));
        k -= 1;
    }
    None
}

/// The length of `s@.take(n)` without its unnamed chunks at the end.
fn trim_unnamed_back_exec(s: &Vec<char>, n: usize, start: usize) -> (r: usize)
    requires
        n <= s.len(),
    ensures
        r <= n,
        s@.take(r as int) == trim_unnamed_back(s@.take(n as int), start as nat),
{
    let mut m: usize = n;
    while m > start
        invariant
            m <= n <= s.len(),
            trim_unnamed_back(s@.take(n as int), start as nat) == trim_unnamed_back(
                s@.take(m as int),
                start as nat,
            ),
        decreases m,
    {
        let t = Ghost(s@.take(m as int));
        proof {
            lemma_last_slash(t@, start as nat);
        }
        let seg_start = match last_slash_exec(s, m, start) {
            Some(i) => i + 1,
            None => start,
        };
        let seg_len = m - seg_start;
        let unnamed = seg_len == 0 || (seg_len == 1 && s[seg_start] == '.');
        let size = match last_slash_exec(s, m, start) {
            Some(i) => m - i,
            None => m - start,
        };
        proof {
            let (sz, seg) = last_chunk(t@, start as nat);
            assert(sz == size);
            assert(seg =~= s@.subrange(seg_start as int, m as int));
            if seg_len == 1 {
                assert(seg[0] == s@[seg_start as int]);
                if s@[seg_start as int] == '.' {
                    assert(seg =~= seq!['.']);
                }
            }
            if seg == seq!['.'] {
                assert(seg.len() == 1);
            }
            assert(t@.take(t@.len() - size) =~= s@.take(m - size));
        }
        if !unnamed {
            return m;
        }
        m = m - size;
    }
    m
}

/// The parent of `path` (`Path::parent`), if it has one.
pub fn parent_path(path: &str) -> (r: Option<String>)
    ensures
        match r {
            Some(p) => parent_of(path@) == Some(p@),
            None => parent_of(path@) is None,
        },
{
    let s = chars_of(path);
    let comps = components_exec(&s);
    let start: usize = if comps.0 || comps.1 {
        1
    } else {
        0
    };
    assert(s@.take(s.len() as int) =~= s@);
    let m = trim_unnamed_back_exec(&s, s.len(), start);
    if m > start {
        proof {
            lemma_last_slash(s@.take(m as int), start as nat);
        }
        let size = match last_slash_exec(&s, m, start) {
            Some(i) => m - i,
            None => m - start,
        };
        proof {
            assert(s@.take(m as int).take(m - size) =~= s@.take(m - size));
        }
        let k = trim_unnamed_back_exec(&s, m - size, start);
        let kept = crate::text::slice_chars(&s, 0, k);
        assert(kept@ =~= s@.take(k as int));
        Some(crate::text::string_of(&kept))
    } else if comps.1 {
        Some(String::new())
    } else {
        None
    }
}

} // verus!
