//! The order in which the standard library's `Path` sorts paths on Unix:
//! component by component, a root before a leading `.`, before `..`, before
//! named components, and named components by their characters (the order of
//! code points, which is that of their UTF-8 bytes).
use vstd::prelude::*;
use crate::paths::{components_exec, path_components};
use crate::text::{chars_eq, chars_of, views, vviews};

verus! {

/// `a` comes before `b` in the order that `lt` extends from elements to
/// sequences: `a` is a proper prefix of `b`, or at the first place where they
/// differ `a`'s element comes first.
pub open spec fn lex_lt<A>(a: Seq<A>, b: Seq<A>, lt: spec_fn(A, A) -> bool) -> bool
    decreases a.len(),
{
    if a.len() == 0 {
        b.len() > 0
    } else if b.len() == 0 {
        false
    } else if lt(a[0], b[0]) {
        true
    } else if a[0] == b[0] {
        lex_lt(a.drop_first(), b.drop_first(), lt)
    } else {
        false
    }
}

/// The order of characters, by code point.
pub open spec fn char_order() -> spec_fn(char, char) -> bool {
    |x: char, y: char| (x as u32) < (y as u32)
}

/// A path component as it is ordered: its kind (root 1, leading `.` 2, `..`
/// 3, a name 4) and its name.
pub open spec fn segment_key(seg: Seq<char>) -> (nat, Seq<char>) {
    if seg == seq!['.', '.'] {
        (3nat, Seq::empty())
    } else {
        (4nat, seg)
    }
}

/// The components of a path, as they are ordered.
pub open spec fn path_key(s: Seq<char>) -> Seq<(nat, Seq<char>)> {
    let (rooted, leading_dot, named) = path_components(s);
    let head = if rooted {
        seq![(1nat, Seq::<char>::empty())]
    } else if leading_dot {
        seq![(2nat, Seq::<char>::empty())]
    } else {
        Seq::empty()
    };
    head + named.map_values(|g: Seq<char>| segment_key(g))
}

/// The order of components: by kind, then by name.
pub open spec fn component_order() -> spec_fn((nat, Seq<char>), (nat, Seq<char>)) -> bool {
    |x: (nat, Seq<char>), y: (nat, Seq<char>)|
        x.0 < y.0 || (x.0 == y.0 && lex_lt(x.1, y.1, char_order()))
}

/// The path `a` sorts before the path `b`, as `Path`'s `<` decides.
pub open spec fn path_lt(a: Seq<char>, b: Seq<char>) -> bool {
    lex_lt(path_key(a), path_key(b), component_order())
}

proof fn lemma_lex_irreflexive<A>(a: Seq<A>, lt: spec_fn(A, A) -> bool)
    requires
        forall|x: A| !(#[trigger] lt(x, x)),
    ensures
        !lex_lt(a, a, lt),
    decreases a.len(),
{
    if a.len() > 0 {
        assert(!lt(a[0], a[0]));
        lemma_lex_irreflexive(a.drop_first(), lt);
    }
}

proof fn lemma_lex_transitive<A>(a: Seq<A>, b: Seq<A>, c: Seq<A>, lt: spec_fn(A, A) -> bool)
    requires
        forall|x: A, y: A, z: A| #[trigger] lt(x, y) && #[trigger] lt(y, z) ==> lt(x, z),
        lex_lt(a, b, lt),
        lex_lt(b, c, lt),
    ensures
        lex_lt(a, c, lt),
    decreases a.len(),
{
    if a.len() > 0 && b.len() > 0 && c.len() > 0 {
        if a[0] == b[0] && b[0] == c[0] && !lt(a[0], b[0]) && !lt(b[0], c[0]) {
            lemma_lex_transitive(a.drop_first(), b.drop_first(), c.drop_first(), lt);
        }
    }
}

proof fn lemma_char_order()
    ensures
        forall|x: char| !(#[trigger] char_order()(x, x)),
        forall|x: char, y: char, z: char|
            #[trigger] char_order()(x, y) && #[trigger] char_order()(y, z) ==> char_order()(x, z),
{
}

proof fn lemma_component_order()
    ensures
        forall|x: (nat, Seq<char>)| !(#[trigger] component_order()(x, x)),
        forall|x: (nat, Seq<char>), y: (nat, Seq<char>), z: (nat, Seq<char>)|
            #[trigger] component_order()(x, y) && #[trigger] component_order()(y, z)
                ==> component_order()(x, z),
{
    lemma_char_order();
    assert forall|x: (nat, Seq<char>)| !(#[trigger] component_order()(x, x)) by {
        lemma_lex_irreflexive(x.1, char_order());
    }
    assert forall|x: (nat, Seq<char>), y: (nat, Seq<char>), z: (nat, Seq<char>)|
        #[trigger] component_order()(x, y) && #[trigger] component_order()(y, z) implies component_order()(
        x,
        z,
    ) by {
        if x.0 == y.0 && y.0 == z.0 {
            lemma_lex_transitive(x.1, y.1, z.1, char_order());
        }
    }
}

/// No path sorts before itself, and a path that sorts before a second one
/// that sorts before a third sorts before the third: `path_lt` is a strict
/// order.
pub proof fn law_path_order_is_strict(a: Seq<char>, b: Seq<char>, c: Seq<char>)
    ensures
        !path_lt(a, a),
        path_lt(a, b) && path_lt(b, c) ==> path_lt(a, c),
{
    lemma_component_order();
    lemma_lex_irreflexive(path_key(a), component_order());
    if path_lt(a, b) && path_lt(b, c) {
        lemma_lex_transitive(path_key(a), path_key(b), path_key(c), component_order());
    }
}

fn chars_before(a: &Vec<char>, b: &Vec<char>) -> (r: bool)
    ensures
        r == lex_lt(a@, b@, char_order()),
{
    let ghost o = char_order();
    let mut i: usize = 0;
    assert(a@.skip(0) =~= a@);
    assert(b@.skip(0) =~= b@);
    while i < a.len() && i < b.len()
        invariant
            i <= a.len(),
            i <= b.len(),
            o == char_order(),
            lex_lt(a@, b@, o) == lex_lt(a@.skip(i as int), b@.skip(i as int), o),
        decreases a.len() - i,
    {
        let x = a[i];
        let y = b[i];
        proof {
            assert(a@.skip(i as int)[0] == x);
            assert(b@.skip(i as int)[0] == y);
        }
        if (x as u32) < (y as u32) {
            return true;
        }
        if x != y {
            return false;
        }
        proof {
            assert(a@.skip(i as int).drop_first() =~= a@.skip(i + 1));
            assert(b@.skip(i as int).drop_first() =~= b@.skip(i + 1));
        }
        i += 1;
    }
    i == a.len() && i < b.len()
}

/// The views of ordered component keys.
pub open spec fn key_views(v: Seq<(u8, Vec<char>)>) -> Seq<(nat, Seq<char>)> {
    v.map_values(|k: (u8, Vec<char>)| (k.0 as nat, k.1@))
}

fn path_key_exec(s: &str) -> (r: Vec<(u8, Vec<char>)>)
    ensures
        key_views(r@) == path_key(s@),
{
    let sv = chars_of(s);
    let (rooted, leading_dot, named) = components_exec(&sv);
    let ghost head = if rooted {
        seq![(1nat, Seq::<char>::empty())]
    } else if leading_dot {
        seq![(2nat, Seq::<char>::empty())]
    } else {
        Seq::<(nat, Seq<char>)>::empty()
    };
    let ghost nv = vviews(named@);
    let mut r: Vec<(u8, Vec<char>)> = Vec::new();
    if rooted {
        r.push((1u8, Vec::new()));
    } else if leading_dot {
        r.push((2u8, Vec::new()));
    }
    let mut dots: Vec<char> = Vec::new();
    dots.push('.');
    dots.push('.');
    assert(dots@ =~= seq!['.', '.']);
    assert(key_views(r@) =~= head);
    assert(nv.take(0).map_values(|g: Seq<char>| segment_key(g)) =~= Seq::<(nat, Seq<char>)>::empty());
    let mut i: usize = 0;
    while i < named.len()
        invariant
            i <= named.len(),
            nv == vviews(named@),
            dots@ == seq!['.', '.'],
            key_views(r@) == head + nv.take(i as int).map_values(|g: Seq<char>| segment_key(g)),
        decreases named.len() - i,
    {
        let ghost before = key_views(r@);
        let ghost g = nv[i as int];
        assert(g == named@[i as int]@);
        if chars_eq(&named[i], &dots) {
            r.push((3u8, Vec::new()));
        } else {
            r.push((4u8, named[i].clone()));
        }
        assert(key_views(r@) =~= before.push(segment_key(g)));
        assert(nv.take(i + 1).map_values(|g: Seq<char>| segment_key(g)) =~= nv.take(
            i as int,
        ).map_values(|g: Seq<char>| segment_key(g)).push(segment_key(g)));
        i += 1;
    }
    assert(nv.take(i as int) =~= nv);
    r
}

fn keys_before(a: &Vec<(u8, Vec<char>)>, b: &Vec<(u8, Vec<char>)>) -> (r: bool)
    ensures
        r == lex_lt(key_views(a@), key_views(b@), component_order()),
{
    let ghost o = component_order();
    let ghost av = key_views(a@);
    let ghost bv = key_views(b@);
    let mut i: usize = 0;
    assert(av.skip(0) =~= av);
    assert(bv.skip(0) =~= bv);
    while i < a.len() && i < b.len()
        invariant
            i <= a.len(),
            i <= b.len(),
            o == component_order(),
            av == key_views(a@),
            bv == key_views(b@),
            lex_lt(av, bv, o) == lex_lt(av.skip(i as int), bv.skip(i as int), o),
        decreases a.len() - i,
    {
        let x = &a[i];
        let y = &b[i];
        proof {
            assert(av.skip(i as int)[0] == (x.0 as nat, x.1@));
            assert(bv.skip(i as int)[0] == (y.0 as nat, y.1@));
        }
        if x.0 < y.0 || (x.0 == y.0 && chars_before(&x.1, &y.1)) {
            return true;
        }
        if !(x.0 == y.0 && chars_eq(&x.1, &y.1)) {
            return false;
        }
        proof {
            assert(av.skip(i as int).drop_first() =~= av.skip(i + 1));
            assert(bv.skip(i as int).drop_first() =~= bv.skip(i + 1));
        }
        i += 1;
    }
    i == a.len() && i < b.len()
}

/// Whether the path `a` sorts before the path `b`, as `Path`'s `<` decides.
pub fn path_less(a: &str, b: &str) -> (r: bool)
    ensures
        r == path_lt(a@, b@),
{
    let ka = path_key_exec(a);
    let kb = path_key_exec(b);
    keys_before(&ka, &kb)
}

/// Where `x` goes in `sorted`: before the first path that `x` sorts before,
/// so after every path that it does not.
pub open spec fn path_insert_pos(sorted: Seq<Seq<char>>, x: Seq<char>) -> nat
    decreases sorted.len(),
{
    if sorted.len() == 0 || path_lt(x, sorted[0]) {
        0
    } else {
        1 + path_insert_pos(sorted.drop_first(), x)
    }
}

/// `s` sorted by `path_lt`, paths that neither sorts before the other kept in
/// their order (a stable sort).
pub open spec fn sort_by_path(s: Seq<Seq<char>>) -> Seq<Seq<char>>
    decreases s.len(),
{
    if s.len() == 0 {
        Seq::empty()
    } else {
        let sorted = sort_by_path(s.drop_last());
        sorted.insert(path_insert_pos(sorted, s.last()) as int, s.last())
    }
}

/// `s` runs in path order: no path sorts before one that comes earlier.
pub open spec fn in_path_order(s: Seq<Seq<char>>) -> bool {
    forall|i: int, j: int| 0 <= i < j < s.len() ==> !path_lt(#[trigger] s[j], #[trigger] s[i])
}

proof fn lemma_path_insert_pos(sorted: Seq<Seq<char>>, x: Seq<char>)
    ensures
        path_insert_pos(sorted, x) <= sorted.len(),
        forall|i: int| 0 <= i < path_insert_pos(sorted, x) ==> !path_lt(x, #[trigger] sorted[i]),
        path_insert_pos(sorted, x) < sorted.len() ==> path_lt(
            x,
            sorted[path_insert_pos(sorted, x) as int],
        ),
    decreases sorted.len(),
{
    if sorted.len() > 0 && !path_lt(x, sorted[0]) {
        let t = sorted.drop_first();
        lemma_path_insert_pos(t, x);
        assert forall|i: int| 0 <= i < path_insert_pos(sorted, x) implies !path_lt(
            x,
            #[trigger] sorted[i],
        ) by {
            if i > 0 {
                assert(sorted[i] == t[i - 1]);
            }
        }
    }
}

/// Sorting paths keeps each path as often as it was given and puts them in
/// path order.
pub proof fn law_sort_by_path(s: Seq<Seq<char>>)
    ensures
        sort_by_path(s).to_multiset() == s.to_multiset(),
        in_path_order(sort_by_path(s)),
    decreases s.len(),
{
    broadcast use vstd::seq_lib::group_to_multiset_ensures;
    if s.len() > 0 {
        let q = s.drop_last();
        law_sort_by_path(q);
        let sorted = sort_by_path(q);
        let x = s.last();
        let p = path_insert_pos(sorted, x) as int;
        lemma_path_insert_pos(sorted, x);
        let r = sorted.insert(p, x);
        sorted.insert_ensures(p, x);
        assert forall|i: int, j: int| 0 <= i < j < r.len() implies !path_lt(
            #[trigger] r[j],
            #[trigger] r[i],
        ) by {
            if j < p {
                assert(r[i] == sorted[i] && r[j] == sorted[j]);
            } else if j == p {
                assert(r[i] == sorted[i]);
            } else if i < p {
                assert(r[i] == sorted[i] && r[j] == sorted[j - 1]);
            } else if i == p {
                assert(r[j] == sorted[j - 1]);
                law_path_order_is_strict(sorted[j - 1], x, sorted[p]);
                law_path_order_is_strict(sorted[p], sorted[p], sorted[p]);
            } else {
                assert(r[i] == sorted[i - 1] && r[j] == sorted[j - 1]);
            }
        }
        assert(q.push(x) =~= s);
        vstd::seq_lib::to_multiset_insert(sorted, p, x);
    }
}

/// The paths sorted in `Path`'s order, as `sort` orders a vector of
/// `PathBuf`s; paths that neither sorts before the other (only those that
/// name the same path) keep their order.
pub fn sort_paths(paths: &Vec<String>) -> (r: Vec<String>)
    ensures
        views(r@) == sort_by_path(views(paths@)),
{
    let ghost pv = views(paths@);
    let mut sorted: Vec<String> = Vec::new();
    let mut j: usize = 0;
    assert(pv.take(0) =~= Seq::<Seq<char>>::empty());
    while j < paths.len()
        invariant
            j <= paths.len(),
            pv == views(paths@),
            views(sorted@) == sort_by_path(pv.take(j as int)),
        decreases paths.len() - j,
    {
        let ghost x = pv[j as int];
        assert(paths@[j as int]@ == x);
        let mut p: usize = 0;
        assert(views(sorted@).skip(0) =~= views(sorted@));
        while p < sorted.len() && !path_less(paths[j].as_str(), sorted[p].as_str())
            invariant
                p <= sorted.len(),
                j < paths.len(),
                x == paths@[j as int]@,
                path_insert_pos(views(sorted@), x) == p + path_insert_pos(
                    views(sorted@).skip(p as int),
                    x,
                ),
            decreases sorted.len() - p,
        {
            proof {
                let t = views(sorted@).skip(p as int);
                assert(t[0] == sorted@[p as int]@);
                assert(t.drop_first() =~= views(sorted@).skip(p + 1));
            }
            p += 1;
        }
        proof {
            let t = views(sorted@).skip(p as int);
            if p < sorted.len() {
                assert(t[0] == sorted@[p as int]@);
            }
            assert(path_insert_pos(t, x) == 0);
            assert(pv.take(j + 1).drop_last() =~= pv.take(j as int));
            assert(pv.take(j + 1).last() == x);
        }
        let ghost old_sorted = sorted@;
        sorted.insert(p, paths[j].clone());
        assert(views(sorted@) =~= views(old_sorted).insert(p as int, x));
        j += 1;
    }
    assert(pv.take(j as int) =~= pv);
    sorted
}

} // verus!
