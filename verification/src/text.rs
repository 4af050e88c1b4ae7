//! Character-level text handling: conversions between `str`/`String` and
//! vectors of characters, whitespace trimming, line splitting, pattern
//! replacement and decimal rendering, each specified over `Seq<char>`.
use vstd::prelude::*;

verus! {

/// The contents of a vector of strings, as character sequences.
pub open spec fn views(v: Seq<String>) -> Seq<Seq<char>> {
    v.map_values(|s: String| s@)
}

/// `p` is a prefix of `s`.
pub open spec fn starts_with(s: Seq<char>, p: Seq<char>) -> bool {
    p.len() <= s.len() && s.take(p.len() as int) == p
}

/// Unicode `White_Space`: the characters for which `char::is_whitespace` holds.
pub open spec fn is_ws(c: char) -> bool {
    let u = c as u32;
    ||| 0x09 <= u <= 0x0d
    ||| u == 0x20
    ||| u == 0x85
    ||| u == 0xa0
    ||| u == 0x1680
    ||| 0x2000 <= u <= 0x200a
    ||| u == 0x2028
    ||| u == 0x2029
    ||| u == 0x202f
    ||| u == 0x205f
    ||| u == 0x3000
}

/// `s` without its leading whitespace.
pub open spec fn trim_start(s: Seq<char>) -> Seq<char>
    decreases s.len(),
{
    if s.len() > 0 && is_ws(s[0]) {
        trim_start(s.drop_first())
    } else {
        s
    }
}

/// `s` without its trailing whitespace.
pub open spec fn trim_end(s: Seq<char>) -> Seq<char>
    decreases s.len(),
{
    if s.len() > 0 && is_ws(s.last()) {
        trim_end(s.drop_last())
    } else {
        s
    }
}

/// `s` without leading and trailing whitespace, as `str::trim`.
pub open spec fn trim(s: Seq<char>) -> Seq<char> {
    trim_end(trim_start(s))
}

/// Length of the first piece of `s` cut after its first newline (all of `s`
/// when it holds none).
pub open spec fn first_piece_len(s: Seq<char>) -> nat
    decreases s.len(),
{
    if s.len() == 0 {
        0
    } else if s[0] == '\n' {
        1
    } else {
        1 + first_piece_len(s.drop_first())
    }
}

/// The pieces of `s` cut after each newline, each keeping its newline, as
/// `str::split_inclusive('\n')`.
pub open spec fn split_inclusive(s: Seq<char>) -> Seq<Seq<char>>
    decreases s.len(),
{
    if s.len() == 0 {
        Seq::empty()
    } else {
        let k = first_piece_len(s);
        if 0 < k <= s.len() {
            seq![s.take(k as int)] + split_inclusive(s.skip(k as int))
        } else {
            Seq::empty()
        }
    }
}

/// A piece without its line ending ("\n" or "\r\n").
pub open spec fn strip_line_ending(l: Seq<char>) -> Seq<char> {
    if l.len() > 0 && l.last() == '\n' {
        let m = l.drop_last();
        if m.len() > 0 && m.last() == '\r' {
            m.drop_last()
        } else {
            m
        }
    } else {
        l
    }
}

/// The lines of `s`, as `str::lines`.
pub open spec fn lines(s: Seq<char>) -> Seq<Seq<char>> {
    split_inclusive(s).map_values(|l: Seq<char>| strip_line_ending(l))
}

/// The trimmed lines of `ls` that are not empty, in order.
pub open spec fn nonempty_trimmed(ls: Seq<Seq<char>>) -> Seq<Seq<char>>
    decreases ls.len(),
{
    if ls.len() == 0 {
        Seq::empty()
    } else {
        let rest = nonempty_trimmed(ls.drop_last());
        if trim(ls.last()).len() == 0 {
            rest
        } else {
            rest.push(trim(ls.last()))
        }
    }
}

/// `s` with every non-overlapping occurrence of `pat`, scanned from the
/// left, replaced by `rep`, as `str::replace` (for a non-empty `pat`).
pub open spec fn replace_all(s: Seq<char>, pat: Seq<char>, rep: Seq<char>) -> Seq<char>
    decreases s.len(),
{
    if pat.len() == 0 || s.len() < pat.len() {
        s
    } else if s.take(pat.len() as int) == pat {
        rep + replace_all(s.skip(pat.len() as int), pat, rep)
    } else {
        seq![s[0]] + replace_all(s.drop_first(), pat, rep)
    }
}

/// The character of a decimal digit.
pub open spec fn digit_char(d: nat) -> char {
    (48 + d) as char
}

/// The decimal rendering of `n`, as `Display` for unsigned integers.
pub open spec fn decimal(n: nat) -> Seq<char>
    decreases n,
{
    if n < 10 {
        seq![digit_char(n)]
    } else {
        decimal(n / 10).push(digit_char(n % 10))
    }
}

/// The characters of `s`.
pub fn chars_of(s: &str) -> (r: Vec<char>)
    ensures
        r@ == s@,
{
    let mut r: Vec<char> = Vec::new();
    for c in it: s.chars()
        invariant
            r@ == it.seq().take(it.index() as int),
    {
        r.push(c);
    }
    proof {
        broadcast use vstd::string::group_string_axioms;
    }
    r
}

/// Appends one character to a string (`String::push`): the string's
/// characters afterwards are the old ones followed by `c`.
#[verifier::external_body]
fn string_push(s: &mut String, c: char)
    ensures
        final(s)@ == old(s)@.push(c),
{
    s.push(c);
}

/// The string made of the characters of `v`.
pub fn string_of(v: &Vec<char>) -> (r: String)
    ensures
        r@ == v@,
{
    let mut r = String::new();
    let mut i: usize = 0;
    while i < v.len()
        invariant
            i <= v.len(),
            r@ == v@.take(i as int),
        decreases v.len() - i,
    {
        string_push(&mut r, v[i]);
        i += 1;
        assert(v@.take(i as int) == v@.take(i - 1).push(v@[i - 1]));
    }
    assert(v@.take(v.len() as int) == v@);
    r
}

/// The characters of a string literal or slice, as a `String`.
pub fn owned(s: &str) -> (r: String)
    ensures
        r@ == s@,
{
    s.to_owned()
}

/// `a` and `b` hold the same characters.
pub fn chars_eq(a: &Vec<char>, b: &Vec<char>) -> (r: bool)
    ensures
        r == (a@ == b@),
{
    if a.len() != b.len() {
        return false;
    }
    let mut i: usize = 0;
    while i < a.len()
        invariant
            a.len() == b.len(),
            i <= a.len(),
            forall|k: int| 0 <= k < i ==> a@[k] == b@[k],
        decreases a.len() - i,
    {
        if a[i] != b[i] {
            return false;
        }
        i += 1;
    }
    assert(a@ =~= b@);
    true
}

/// `p` occurs in `s` at position `at`.
pub fn matches_at(s: &Vec<char>, at: usize, p: &Vec<char>) -> (r: bool)
    requires
        at <= s.len(),
    ensures
        r == starts_with(s@.skip(at as int), p@),
{
    if p.len() > s.len() - at {
        return false;
    }
    let mut i: usize = 0;
    while i < p.len()
        invariant
            at + p.len() <= s.len(),
            i <= p.len(),
            forall|k: int| 0 <= k < i ==> s@[at + k] == p@[k],
        decreases p.len() - i,
    {
        if s[at + i] != p[i] {
            assert(s@.skip(at as int).take(p.len() as int)[i as int] != p@[i as int]);
            return false;
        }
        i += 1;
    }
    assert(s@.skip(at as int).take(p.len() as int) =~= p@);
    true
}

/// `p` is a prefix of `s`.
pub fn has_prefix(s: &Vec<char>, p: &Vec<char>) -> (r: bool)
    ensures
        r == starts_with(s@, p@),
{
    let r = matches_at(s, 0, p);
    assert(s@.skip(0) =~= s@);
    r
}

/// The string `s` starts with the literal `p`.
pub fn str_has_prefix(s: &str, p: &str) -> (r: bool)
    ensures
        r == starts_with(s@, p@),
{
    let sv = chars_of(s);
    let pv = chars_of(p);
    has_prefix(&sv, &pv)
}

/// `c` is whitespace, as `char::is_whitespace`.
pub fn is_whitespace(c: char) -> (r: bool)
    ensures
        r == is_ws(c),
{
    let u = c as u32;
    (0x09 <= u && u <= 0x0d) || u == 0x20 || u == 0x85 || u == 0xa0 || u == 0x1680 || (0x2000
        <= u && u <= 0x200a) || u == 0x2028 || u == 0x2029 || u == 0x202f || u == 0x205f || u
        == 0x3000
}

/// The characters of `s` from `lo` up to `hi`.
pub fn slice_chars(s: &Vec<char>, lo: usize, hi: usize) -> (r: Vec<char>)
    requires
        lo <= hi <= s.len(),
    ensures
        r@ == s@.subrange(lo as int, hi as int),
{
    let mut r: Vec<char> = Vec::new();
    let mut i: usize = lo;
    while i < hi
        invariant
            lo <= i <= hi <= s.len(),
            r@ == s@.subrange(lo as int, i as int),
        decreases hi - i,
    {
        r.push(s[i]);
        i += 1;
        assert(s@.subrange(lo as int, i as int) =~= s@.subrange(lo as int, i - 1).push(
            s@[i - 1],
        ));
    }
    r
}

/// Appends the characters of `b` to `a`.
pub fn push_all(a: &mut Vec<char>, b: &Vec<char>)
    ensures
        final(a)@ == old(a)@ + b@,
{
    let mut i: usize = 0;
    while i < b.len()
        invariant
            i <= b.len(),
            a@ == old(a)@ + b@.take(i as int),
        decreases b.len() - i,
    {
        a.push(b[i]);
        i += 1;
        assert(old(a)@ + b@.take(i as int) =~= (old(a)@ + b@.take(i - 1)).push(b@[i - 1]));
    }
    assert(b@.take(b.len() as int) =~= b@);
}

/// Appends the characters of the literal `b` to `a`.
pub fn push_str(a: &mut Vec<char>, b: &str)
    ensures
        final(a)@ == old(a)@ + b@,
{
    let bv = chars_of(b);
    push_all(a, &bv);
}

proof fn lemma_trim_start_skip(s: Seq<char>, i: int)
    requires
        0 <= i <= s.len(),
        forall|k: int| 0 <= k < i ==> is_ws(#[trigger] s[k]),
    ensures
        trim_start(s) == trim_start(s.skip(i)),
    decreases i,
{
    if i > 0 {
        assert(s.drop_first().skip(i - 1) =~= s.skip(i));
        assert forall|k: int| 0 <= k < i - 1 implies is_ws(#[trigger] s.drop_first()[k]) by {
            assert(s.drop_first()[k] == s[k + 1]);
        }
        lemma_trim_start_skip(s.drop_first(), i - 1);
    } else {
        assert(s.skip(0) =~= s);
    }
}

proof fn lemma_trim_end_take(s: Seq<char>, j: int)
    requires
        0 <= j <= s.len(),
        forall|k: int| j <= k < s.len() ==> is_ws(#[trigger] s[k]),
    ensures
        trim_end(s) == trim_end(s.take(j)),
    decreases s.len() - j,
{
    if j < s.len() {
        assert(s.drop_last().take(j) =~= s.take(j));
        lemma_trim_end_take(s.drop_last(), j);
    } else {
        assert(s.take(j) =~= s);
    }
}

/// `s` without leading and trailing whitespace.
pub fn trim_chars(s: &Vec<char>) -> (r: Vec<char>)
    ensures
        r@ == trim(s@),
{
    let mut i: usize = 0;
    while i < s.len() && is_whitespace(s[i])
        invariant
            i <= s.len(),
            forall|k: int| 0 <= k < i ==> is_ws(#[trigger] s@[k]),
        decreases s.len() - i,
    {
        i += 1;
    }
    proof {
        lemma_trim_start_skip(s@, i as int);
    }
    let mut j: usize = s.len();
    while j > i && is_whitespace(s[j - 1])
        invariant
            i <= j <= s.len(),
            forall|k: int| j <= k < s.len() ==> is_ws(#[trigger] s@[k]),
        decreases j,
    {
        j -= 1;
    }
    let ghost t = s@.skip(i as int);
    proof {
        assert forall|k: int| j - i <= k < t.len() implies is_ws(#[trigger] t[k]) by {
            assert(t[k] == s@[i + k]);
        }
        lemma_trim_end_take(t, j - i);
        assert(t.take(j - i) =~= s@.subrange(i as int, j as int));
        let u = s@.subrange(i as int, j as int);
        if u.len() > 0 {
            assert(u.last() == s@[j - 1]);
        }
        assert(trim_end(u) == u);
        if t.len() > 0 {
            assert(t[0] == s@[i as int]);
        }
        assert(trim_start(t) == t);
    }
    slice_chars(s, i, j)
}

/// `s` consists of whitespace only, as `str::trim(s).is_empty()`.
pub fn blank(s: &str) -> (r: bool)
    ensures
        r == (trim(s@).len() == 0),
{
    let v = chars_of(s);
    let t = trim_chars(&v);
    t.len() == 0
}

/// The contents of a vector of character vectors.
pub open spec fn vviews(v: Seq<Vec<char>>) -> Seq<Seq<char>> {
    v.map_values(|x: Vec<char>| x@)
}

proof fn lemma_first_piece(t: Seq<char>, m: int)
    requires
        0 <= m <= t.len(),
        forall|k: int| 0 <= k < m ==> #[trigger] t[k] != '\n',
        m == t.len() || t[m] == '\n',
    ensures
        first_piece_len(t) == (if m == t.len() { m } else { m + 1 }),
    decreases m,
{
    if m > 0 {
        assert forall|k: int| 0 <= k < m - 1 implies #[trigger] t.drop_first()[k] != '\n' by {
            assert(t.drop_first()[k] == t[k + 1]);
        }
        lemma_first_piece(t.drop_first(), m - 1);
    }
}

/// The pieces of `s` cut after each newline, each keeping its newline.
pub fn split_inclusive_chars(s: &Vec<char>) -> (r: Vec<Vec<char>>)
    ensures
        vviews(r@) == split_inclusive(s@),
{
    let mut r: Vec<Vec<char>> = Vec::new();
    let mut start: usize = 0;
    let mut i: usize = 0;
    assert(s@.skip(0) =~= s@);
    assert(vviews(r@) + split_inclusive(s@) =~= split_inclusive(s@));
    while i < s.len()
        invariant
            start <= i <= s.len(),
            vviews(r@) + split_inclusive(s@.skip(start as int)) == split_inclusive(s@),
            forall|k: int| start <= k < i ==> #[trigger] s@[k] != '\n',
        decreases s.len() - i,
    {
        if s[i] == '\n' {
            let piece = slice_chars(s, start, i + 1);
            proof {
                let t = s@.skip(start as int);
                assert forall|k: int| 0 <= k < i - start implies #[trigger] t[k] != '\n' by {
                    assert(t[k] == s@[start + k]);
                }
                lemma_first_piece(t, i - start);
                assert(t.take(i + 1 - start) =~= piece@);
                assert(t.skip(i + 1 - start) =~= s@.skip(i + 1));
                assert(split_inclusive(t) == seq![piece@] + split_inclusive(s@.skip(i + 1)));
                assert(vviews(r@.push(piece)) =~= vviews(r@).push(piece@));
                assert(vviews(r@).push(piece@) + split_inclusive(s@.skip(i + 1)) =~= vviews(r@)
                    + (seq![piece@] + split_inclusive(s@.skip(i + 1))));
            }
            r.push(piece);
            start = i + 1;
        }
        i += 1;
    }
    if start < s.len() {
        let piece = slice_chars(s, start, s.len());
        proof {
            let t = s@.skip(start as int);
            assert forall|k: int| 0 <= k < t.len() implies #[trigger] t[k] != '\n' by {
                assert(t[k] == s@[start + k]);
            }
            lemma_first_piece(t, t.len() as int);
            assert(t.take(t.len() as int) =~= piece@);
            assert(t.skip(t.len() as int) =~= Seq::<char>::empty());
            assert(split_inclusive(t.skip(t.len() as int)) =~= Seq::<Seq<char>>::empty());
            assert(split_inclusive(t) =~= seq![piece@]);
            assert(vviews(r@.push(piece)) =~= vviews(r@).push(piece@));
        }
        r.push(piece);
    } else {
        proof {
            assert(s@.skip(start as int) =~= Seq::<char>::empty());
            assert(vviews(r@) + Seq::<Seq<char>>::empty() =~= vviews(r@));
        }
    }
    r
}

/// A line without its line ending ("\n" or "\r\n").
pub fn strip_line_ending_chars(l: &Vec<char>) -> (r: Vec<char>)
    ensures
        r@ == strip_line_ending(l@),
{
    let n = l.len();
    if n > 0 && l[n - 1] == '\n' {
        if n > 1 && l[n - 2] == '\r' {
            slice_chars(l, 0, n - 2)
        } else {
            slice_chars(l, 0, n - 1)
        }
    } else {
        slice_chars(l, 0, n)
    }
}

/// The lines of `s`, as `str::lines`.
pub fn lines_chars(s: &Vec<char>) -> (r: Vec<Vec<char>>)
    ensures
        vviews(r@) == lines(s@),
{
    let pieces = split_inclusive_chars(s);
    let mut r: Vec<Vec<char>> = Vec::new();
    let mut i: usize = 0;
    while i < pieces.len()
        invariant
            i <= pieces.len(),
            vviews(pieces@) == split_inclusive(s@),
            vviews(r@) == split_inclusive(s@).take(i as int).map_values(
                |l: Seq<char>| strip_line_ending(l),
            ),
        decreases pieces.len() - i,
    {
        let l = strip_line_ending_chars(&pieces[i]);
        proof {
            assert(split_inclusive(s@)[i as int] == pieces@[i as int]@);
        }
        let ghost old_r = r@;
        r.push(l);
        i += 1;
        assert(vviews(r@) =~= vviews(old_r).push(l@));
        assert(vviews(r@) =~= split_inclusive(s@).take(i as int).map_values(
            |l: Seq<char>| strip_line_ending(l),
        ));
    }
    assert(split_inclusive(s@).take(i as int) =~= split_inclusive(s@));
    r
}

/// The non-empty trimmed lines of `content`, as strings.
pub fn nonempty_trimmed_lines(content: &str) -> (r: Vec<String>)
    ensures
        views(r@) == nonempty_trimmed(lines(content@)),
{
    let cv = chars_of(content);
    let ls = lines_chars(&cv);
    let mut r: Vec<String> = Vec::new();
    let mut i: usize = 0;
    while i < ls.len()
        invariant
            i <= ls.len(),
            vviews(ls@) == lines(content@),
            views(r@) == nonempty_trimmed(lines(content@).take(i as int)),
        decreases ls.len() - i,
    {
        let t = trim_chars(&ls[i]);
        proof {
            let pre = lines(content@).take(i + 1);
            assert(pre.drop_last() =~= lines(content@).take(i as int));
            assert(pre.last() == ls@[i as int]@);
        }
        if t.len() > 0 {
            let st = string_of(&t);
            r.push(st);
            assert(views(r@) =~= nonempty_trimmed(lines(content@).take(i as int)).push(t@));
        }
        i += 1;
    }
    assert(lines(content@).take(i as int) =~= lines(content@));
    r
}

/// `s` with every non-overlapping occurrence of the non-empty `pat`
/// replaced by `rep`, scanning from the left.
pub fn replace_chars(s: &Vec<char>, pat: &Vec<char>, rep: &Vec<char>) -> (r: Vec<char>)
    requires
        pat.len() > 0,
    ensures
        r@ == replace_all(s@, pat@, rep@),
{
    let mut r: Vec<char> = Vec::new();
    let mut i: usize = 0;
    assert(s@.skip(0) =~= s@);
    assert(r@ + replace_all(s@, pat@, rep@) =~= replace_all(s@, pat@, rep@));
    while i < s.len()
        invariant
            pat.len() > 0,
            i <= s.len(),
            r@ + replace_all(s@.skip(i as int), pat@, rep@) == replace_all(s@, pat@, rep@),
        decreases s.len() - i,
    {
        let t = Ghost(s@.skip(i as int));
        if matches_at(s, i, pat) {
            proof {
                assert(t@.skip(pat.len() as int) =~= s@.skip(i + pat.len()));
                assert(r@ + (rep@ + replace_all(t@.skip(pat.len() as int), pat@, rep@)) =~= (r@
                    + rep@) + replace_all(s@.skip(i + pat.len()), pat@, rep@));
            }
            push_all(&mut r, rep);
            i += pat.len();
        } else {
            proof {
                if t@.len() >= pat@.len() {
                    assert(t@.drop_first() =~= s@.skip(i + 1));
                    assert(t@[0] == s@[i as int]);
                    assert(r@ + (seq![s@[i as int]] + replace_all(t@.drop_first(), pat@, rep@))
                        =~= r@.push(s@[i as int]) + replace_all(s@.skip(i + 1), pat@, rep@));
                } else {
                    assert(replace_all(t@, pat@, rep@) == t@);
                    assert(t@.drop_first() =~= s@.skip(i + 1));
                    assert(replace_all(t@.drop_first(), pat@, rep@) == t@.drop_first());
                    assert(r@ + t@ =~= r@.push(s@[i as int]) + t@.drop_first());
                }
            }
            r.push(s[i]);
            i += 1;
        }
    }
    assert(s@.skip(i as int) =~= Seq::<char>::empty());
    assert(r@ + Seq::<char>::empty() =~= r@);
    r
}

/// The decimal rendering of `n`.
pub fn decimal_chars(n: usize) -> (r: Vec<char>)
    ensures
        r@ == decimal(n as nat),
    decreases n,
{
    let d = (n % 10) as u8;
    let c = (48u8 + d) as char;
    if n < 10 {
        let mut r: Vec<char> = Vec::new();
        r.push(c);
        assert(r@ =~= seq![digit_char(n as nat)]);
        r
    } else {
        let mut r = decimal_chars(n / 10);
        r.push(c);
        r
    }
}

} // verus!
