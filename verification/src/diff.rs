//! Applying a unified diff, as printed by `cargo mutants --diff`, to the text
//! of a source file.
use vstd::prelude::*;
use crate::text::{
    chars_eq, chars_of, first_piece_len, has_prefix, lines, lines_chars, matches_at, push_all, push_str,
    slice_chars, split_inclusive, split_inclusive_chars, starts_with, string_of, vviews,
};

verus! {

/// First position at which `p` occurs in `s`.
pub open spec fn find(s: Seq<char>, p: Seq<char>) -> Option<nat>
    decreases s.len(),
{
    if starts_with(s, p) {
        Some(0)
    } else if s.len() == 0 {
        None
    } else {
        match find(s.drop_first(), p) {
            Some(k) => Some(k + 1),
            None => None,
        }
    }
}

/// `c` is an ASCII decimal digit.
pub open spec fn is_digit(c: char) -> bool {
    48 <= (c as u32) <= 57
}

/// The longest prefix of `s` made of ASCII digits.
pub open spec fn leading_digits(s: Seq<char>) -> Seq<char>
    decreases s.len(),
{
    if s.len() > 0 && is_digit(s[0]) {
        seq![s[0]] + leading_digits(s.drop_first())
    } else {
        Seq::empty()
    }
}

/// The number that a string of ASCII digits denotes.
pub open spec fn digits_value(d: Seq<char>) -> nat
    decreases d.len(),
{
    if d.len() == 0 {
        0
    } else {
        digits_value(d.drop_last()) * 10 + ((d.last() as u32) - 48) as nat
    }
}

/// The old-file start line of a hunk header such as `@@ -3,7 +3,7 @@`: the
/// digits right after the first `-` that follows the first `@@`, when there
/// is at least one and their value fits in a `usize`.
pub open spec fn hunk_old_start(line: Seq<char>) -> Option<nat> {
    match find(line, "@@"@) {
        None => None,
        Some(at) => {
            let rest = line.skip(at + 2int);
            match find(rest, seq!['-']) {
                None => None,
                Some(d) => {
                    let digits = leading_digits(rest.skip(d + 1int));
                    if digits.len() == 0 || digits_value(digits) > usize::MAX {
                        None
                    } else {
                        Some(digits_value(digits))
                    }
                },
            }
        },
    }
}

/// `l` without one trailing newline.
pub open spec fn strip_nl(l: Seq<char>) -> Seq<char> {
    if l.len() > 0 && l.last() == '\n' {
        l.drop_last()
    } else {
        l
    }
}

/// The lines of `ls` joined, each keeping its own line ending.
pub open spec fn concat(ls: Seq<Seq<char>>) -> Seq<char>
    decreases ls.len(),
{
    if ls.len() == 0 {
        Seq::empty()
    } else {
        concat(ls.drop_last()) + ls.last()
    }
}

/// The marker that follows a diff line whose text has no final newline.
pub open spec fn no_newline_marker() -> Seq<char> {
    "\\ No newline at end of file"@
}

/// The source line index that a hunk starting at `start` (1-based) begins at.
pub open spec fn hunk_target(start: nat) -> nat {
    if start > 0 {
        (start - 1) as nat
    } else {
        0
    }
}

/// Where copying the untouched source lines before a hunk stops: `oi` moves
/// up to the hunk's line, but never past the end of the source nor backwards.
pub open spec fn copy_end(oi: nat, target: nat, n: nat) -> nat {
    let t = if target < n {
        target
    } else {
        n
    };
    if oi < t {
        t
    } else {
        oi
    }
}

/// The result of applying the diff lines `dl` from line `di` on, to the source
/// lines `orig` of which the first `oi` are consumed, with `out` produced so
/// far, `saw` telling whether a hunk header was met and `in_hunk` whether the
/// current line belongs to a hunk. `None` stands for the inputs on which the
/// diff line cannot be split after its first byte (an empty line or one that
/// starts with a non-ASCII character inside a hunk).
pub open spec fn apply_from(
    orig: Seq<Seq<char>>,
    dl: Seq<Seq<char>>,
    di: nat,
    oi: nat,
    out: Seq<char>,
    saw: bool,
    in_hunk: bool,
) -> Option<Result<Seq<char>, Seq<char>>>
    decreases dl.len() - di,
{
    if di >= dl.len() {
        if !saw {
            Some(Err("No unified diff hunks were found"@))
        } else {
            Some(Ok(out + concat(orig.skip(oi as int))))
        }
    } else {
        let line = dl[di as int];
        if starts_with(line, "@@"@) {
            match hunk_old_start(line) {
                None => Some(Err("Invalid unified diff hunk header: "@ + line)),
                Some(start) => {
                    let noi = copy_end(oi, hunk_target(start), orig.len());
                    apply_from(
                        orig,
                        dl,
                        di + 1,
                        noi,
                        out + concat(orig.subrange(oi as int, noi as int)),
                        true,
                        true,
                    )
                },
            }
        } else if !in_hunk {
            apply_from(orig, dl, di + 1, oi, out, saw, false)
        } else if line == no_newline_marker() {
            apply_from(orig, dl, di + 1, oi, out, saw, true)
        } else if line.len() == 0 || (line[0] as u32) >= 0x80 {
            None
        } else {
            let prefix = line[0];
            let content = line.drop_first();
            let no_nl = di + 1 < dl.len() && dl[di + 1int] == no_newline_marker();
            let ndi: nat = if no_nl {
                di + 2
            } else {
                di + 1
            };
            if prefix == ' ' {
                if oi >= orig.len() {
                    Some(Err("Unified diff context line exceeded source length"@))
                } else if strip_nl(orig[oi as int]) != content {
                    Some(Err("Unified diff context line does not match source"@))
                } else {
                    apply_from(orig, dl, ndi, oi + 1, out + orig[oi as int], saw, true)
                }
            } else if prefix == '-' {
                if oi >= orig.len() {
                    Some(Err("Unified diff deletion line exceeded source length"@))
                } else if strip_nl(orig[oi as int]) != content {
                    Some(Err("Unified diff deletion line does not match source"@))
                } else {
                    apply_from(orig, dl, ndi, oi + 1, out, saw, true)
                }
            } else if prefix == '+' {
                let added = if no_nl {
                    content
                } else {
                    content.push('\n')
                };
                apply_from(orig, dl, ndi, oi, out + added, saw, true)
            } else {
                Some(Err("Unsupported unified diff line prefix '"@ + seq![prefix] + "'"@))
            }
        }
    }
}

/// The result of applying `diff` to `original`: `None` on the inputs on which
/// the application cannot split a hunk line, else the patched text or the
/// reason it does not apply.
pub open spec fn apply_spec(original: Seq<char>, diff: Seq<char>) -> Option<
    Result<Seq<char>, Seq<char>>,
> {
    apply_from(split_inclusive(original), lines(diff), 0, 0, Seq::empty(), false, false)
}

/// The view of an outcome of a diff application.
pub open spec fn outcome_view(r: Option<Result<String, String>>) -> Option<
    Result<Seq<char>, Seq<char>>,
> {
    match r {
        None => None,
        Some(Ok(s)) => Some(Ok(s@)),
        Some(Err(e)) => Some(Err(e@)),
    }
}

proof fn lemma_find_skip(s: Seq<char>, p: Seq<char>, i: int)
    requires
        0 <= i <= s.len(),
        forall|k: int| 0 <= k < i ==> !starts_with(#[trigger] s.skip(k), p),
    ensures
        find(s, p) == (match find(s.skip(i), p) {
            Some(k) => Some(k + i as nat),
            None => None,
        }),
    decreases i,
{
    if i == 0 {
        assert(s.skip(0) =~= s);
        match find(s, p) {
            Some(k) => {},
            None => {},
        }
    } else {
        assert(s.skip(0) =~= s);
        assert(!starts_with(s, p));
        assert forall|k: int| 0 <= k < i - 1 implies !starts_with(
            #[trigger] s.drop_first().skip(k),
            p,
        ) by {
            assert(s.drop_first().skip(k) =~= s.skip(k + 1int));
        }
        assert(s.drop_first().skip(i - 1) =~= s.skip(i));
        lemma_find_skip(s.drop_first(), p, i - 1);
    }
}

/// First position at which `p` occurs in `s`.
pub fn find_chars(s: &Vec<char>, p: &Vec<char>) -> (r: Option<usize>)
    ensures
        r matches Some(k) ==> find(s@, p@) == Some(k as nat),
        r is None ==> find(s@, p@) is None,
{
    let mut i: usize = 0;
    while i <= s.len()
        invariant
            i <= s.len(),
            forall|k: int| 0 <= k < i ==> !starts_with(#[trigger] s@.skip(k), p@),
        decreases s.len() + 1 - i,
    {
        if matches_at(s, i, p) {
            proof {
                lemma_find_skip(s@, p@, i as int);
            }
            return Some(i);
        }
        if i == s.len() {
            proof {
                lemma_find_skip(s@, p@, i as int);
                assert(s@.skip(i as int) =~= Seq::<char>::empty());
            }
            return None;
        }
        i += 1;
    }
    None
}

proof fn lemma_leading_digits(s: Seq<char>, i: int)
    requires
        0 <= i <= s.len(),
        forall|k: int| 0 <= k < i ==> is_digit(#[trigger] s[k]),
        i == s.len() || !is_digit(s[i]),
    ensures
        leading_digits(s) == s.take(i),
    decreases i,
{
    if i > 0 {
        assert forall|k: int| 0 <= k < i - 1 implies is_digit(#[trigger] s.drop_first()[k]) by {
            assert(s.drop_first()[k] == s[k + 1]);
        }
        lemma_leading_digits(s.drop_first(), i - 1);
        assert(seq![s[0]] + s.drop_first().take(i - 1) =~= s.take(i));
    } else {
        assert(s.take(0) =~= Seq::<char>::empty());
    }
}

/// The old-file start line of a unified diff hunk header, as `usize`.
pub fn parse_hunk_old_start(line: &str) -> (r: Option<usize>)
    ensures
        r matches Some(v) ==> hunk_old_start(line@) == Some(v as nat),
        r is None ==> hunk_old_start(line@) is None,
{
    let lv = chars_of(line);
    let at_pat = chars_of("@@");
    parse_hunk_old_start_chars(&lv, &at_pat)
}

fn parse_hunk_old_start_chars(lv: &Vec<char>, at_pat: &Vec<char>) -> (r: Option<usize>)
    requires
        at_pat@ == "@@"@,
    ensures
        r matches Some(v) ==> hunk_old_start(lv@) == Some(v as nat),
        r is None ==> hunk_old_start(lv@) is None,
{
    let at = match find_chars(lv, at_pat) {
        Some(at) => at,
        None => return None,
    };
    proof {
        reveal_strlit("@@");
        assert(at_pat@.len() == 2);
        lemma_find_starts(lv@, at_pat@);
        assert(find(lv@, at_pat@) == Some(at as nat));
        assert(at + 2 <= lv@.len());
    }
    assert(at + 2 <= lv.len());
    let rest = slice_chars(lv, at + 2, lv.len());
    let mut dash: Vec<char> = Vec::new();
    dash.push('-');
    let d = match find_chars(&rest, &dash) {
        Some(d) => d,
        None => {
            assert(dash@ =~= seq!['-']);
            assert(rest@ =~= lv@.skip(at + 2));
            return None;
        },
    };
    assert(dash@ =~= seq!['-']);
    assert(rest@ =~= lv@.skip(at + 2));
    proof {
        lemma_find_starts(rest@, dash@);
    }
    let tail = slice_chars(&rest, d + 1, rest.len());
    let mut i: usize = 0;
    let mut v: usize = 0;
    let mut overflow = false;
    while i < tail.len() && 48 <= (tail[i] as u32) && (tail[i] as u32) <= 57
        invariant
            i <= tail.len(),
            forall|k: int| 0 <= k < i ==> is_digit(#[trigger] tail@[k]),
            !overflow ==> v as nat == digits_value(tail@.take(i as int)),
            overflow ==> digits_value(tail@.take(i as int)) > usize::MAX,
        decreases tail.len() - i,
    {
        let dig = (tail[i] as u32 - 48) as usize;
        proof {
            assert(tail@.take(i + 1).drop_last() =~= tail@.take(i as int));
            assert(tail@.take(i + 1).last() == tail@[i as int]);
            assert(digits_value(tail@.take(i + 1)) == digits_value(tail@.take(i as int)) * 10
                + dig);
        }
        if !overflow {
            if v > (usize::MAX - dig) / 10 {
                overflow = true;
                proof {
                    assert(v * 10 + dig > usize::MAX) by (nonlinear_arith)
                        requires
                            v > (usize::MAX - dig) / 10,
                            dig <= 9,
                    ;
                }
            } else {
                proof {
                    assert(v * 10 + dig <= usize::MAX) by (nonlinear_arith)
                        requires
                            v <= (usize::MAX - dig) / 10,
                            dig <= 9,
                    ;
                }
                v = v * 10 + dig;
            }
        } else {
            proof {
                let a = digits_value(tail@.take(i as int));
                assert(a * 10 + dig > usize::MAX) by (nonlinear_arith)
                    requires
                        a > usize::MAX,
                ;
            }
        }
        i += 1;
    }
    proof {
        lemma_leading_digits(tail@, i as int);
        assert(tail@ =~= rest@.skip(d + 1));
    }
    if i == 0 || overflow {
        None
    } else {
        Some(v)
    }
}

proof fn lemma_find_starts(s: Seq<char>, p: Seq<char>)
    ensures
        find(s, p) matches Some(k) ==> k + p.len() <= s.len() && starts_with(
            s.skip(k as int),
            p,
        ),
    decreases s.len(),
{
    if starts_with(s, p) {
        assert(s.skip(0) =~= s);
    } else if s.len() > 0 {
        lemma_find_starts(s.drop_first(), p);
        if let Some(k) = find(s.drop_first(), p) {
            assert(s.drop_first().skip(k as int) =~= s.skip(k + 1int));
        }
    }
}

/// `line` without one trailing newline.
pub fn strip_trailing_newline(line: &str) -> (r: String)
    ensures
        r@ == strip_nl(line@),
{
    let lv = chars_of(line);
    let r = strip_nl_chars(&lv);
    string_of(&r)
}

fn strip_nl_chars(l: &Vec<char>) -> (r: Vec<char>)
    ensures
        r@ == strip_nl(l@),
{
    let n = l.len();
    if n > 0 && l[n - 1] == '\n' {
        slice_chars(l, 0, n - 1)
    } else {
        slice_chars(l, 0, n)
    }
}

proof fn lemma_concat_push(ls: Seq<Seq<char>>, a: int, b: int)
    requires
        0 <= a <= b < ls.len(),
    ensures
        concat(ls.subrange(a, b + 1)) == concat(ls.subrange(a, b)) + ls[b],
{
    assert(ls.subrange(a, b + 1).drop_last() =~= ls.subrange(a, b));
}

/// Appends the lines `ls[from..to]` to `out`.
fn copy_lines(out: &mut Vec<char>, ls: &Vec<Vec<char>>, from: usize, to: usize)
    requires
        from <= to <= ls.len(),
    ensures
        final(out)@ == old(out)@ + concat(vviews(ls@).subrange(from as int, to as int)),
{
    let ghost v = vviews(ls@);
    let mut i: usize = from;
    assert(v.subrange(from as int, from as int) =~= Seq::<Seq<char>>::empty());
    assert(old(out)@ + Seq::<char>::empty() =~= old(out)@);
    while i < to
        invariant
            v == vviews(ls@),
            from <= i <= to <= ls.len(),
            out@ == old(out)@ + concat(v.subrange(from as int, i as int)),
        decreases to - i,
    {
        push_all(out, &ls[i]);
        proof {
            lemma_concat_push(v, from as int, i as int);
            assert(v[i as int] == ls@[i as int]@);
        }
        i += 1;
        assert(out@ =~= old(out)@ + concat(v.subrange(from as int, i as int)));
    }
}

/// Applies `diff` to `original`; `None` where a hunk line cannot be split
/// after its first byte (an empty line, or one that starts with a non-ASCII
/// character), on which the runner gives up with a panic.
pub fn apply_unified_diff_checked(original: &str, diff: &str) -> (r: Option<Result<String, String>>)
    ensures
        outcome_view(r) == apply_spec(original@, diff@),
{
    let ov = chars_of(original);
    let dv = chars_of(diff);
    let orig = split_inclusive_chars(&ov);
    let dl = lines_chars(&dv);
    let ghost og = vviews(orig@);
    let ghost dg = vviews(dl@);
    let at_pat = chars_of("@@");
    let marker = chars_of("\\ No newline at end of file");
    let mut out: Vec<char> = Vec::new();
    let mut di: usize = 0;
    let mut oi: usize = 0;
    let mut saw = false;
    let mut in_hunk = false;
    while di < dl.len()
        invariant
            og == vviews(orig@),
            dg == vviews(dl@),
            og == split_inclusive(original@),
            dg == lines(diff@),
            at_pat@ == "@@"@,
            marker@ == no_newline_marker(),
            di <= dl.len(),
            oi <= orig.len(),
            apply_from(og, dg, di as nat, oi as nat, out@, saw, in_hunk) == apply_spec(
                original@,
                diff@,
            ),
        decreases dl.len() - di,
    {
        assert(dg[di as int] == dl@[di as int]@);
        if has_prefix(&dl[di], &at_pat) {
            match parse_hunk_old_start_chars(&dl[di], &at_pat) {
                None => {
                    let mut msg = chars_of("Invalid unified diff hunk header: ");
                    push_all(&mut msg, &dl[di]);
                    return Some(Err(string_of(&msg)));
                },
                Some(start) => {
                    let target = if start > 0 {
                        start - 1
                    } else {
                        0
                    };
                    let t = if target < orig.len() {
                        target
                    } else {
                        orig.len()
                    };
                    let noi = if oi < t {
                        t
                    } else {
                        oi
                    };
                    copy_lines(&mut out, &orig, oi, noi);
                    oi = noi;
                    saw = true;
                    in_hunk = true;
                    di += 1;
                },
            }
        } else if !in_hunk {
            di += 1;
        } else if chars_eq(&dl[di], &marker) {
            di += 1;
        } else if dl[di].len() == 0 || (dl[di][0] as u32) >= 0x80 {
            return None;
        } else {
            let prefix = dl[di][0];
            let content = slice_chars(&dl[di], 1, dl[di].len());
            assert(content@ =~= dg[di as int].drop_first());
            let no_nl = di + 1 < dl.len() && chars_eq(&dl[di + 1], &marker);
            proof {
                if di + 1 < dl.len() {
                    assert(dg[di + 1] == dl@[di + 1]@);
                }
            }
            let ndi = if no_nl {
                di + 2
            } else {
                di + 1
            };
            if prefix == ' ' || prefix == '-' {
                if oi >= orig.len() {
                    let msg = if prefix == ' ' {
                        chars_of("Unified diff context line exceeded source length")
                    } else {
                        chars_of("Unified diff deletion line exceeded source length")
                    };
                    return Some(Err(string_of(&msg)));
                }
                let src = strip_nl_chars(&orig[oi]);
                assert(og[oi as int] == orig@[oi as int]@);
                if !chars_eq(&src, &content) {
                    let msg = if prefix == ' ' {
                        chars_of("Unified diff context line does not match source")
                    } else {
                        chars_of("Unified diff deletion line does not match source")
                    };
                    return Some(Err(string_of(&msg)));
                }
                if prefix == ' ' {
                    push_all(&mut out, &orig[oi]);
                }
                oi += 1;
            } else if prefix == '+' {
                push_all(&mut out, &content);
                if !no_nl {
                    out.push('\n');
                }
            } else {
                let mut msg = chars_of("Unsupported unified diff line prefix '");
                msg.push(prefix);
                push_str(&mut msg, "'");
                assert(msg@ =~= "Unsupported unified diff line prefix '"@ + seq![prefix] + "'"@);
                return Some(Err(string_of(&msg)));
            }
            di = ndi;
        }
    }
    if !saw {
        let msg = chars_of("No unified diff hunks were found");
        return Some(Err(string_of(&msg)));
    }
    let n = orig.len();
    copy_lines(&mut out, &orig, oi, n);
    assert(og.subrange(oi as int, n as int) =~= og.skip(oi as int));
    Some(Ok(string_of(&out)))
}

/// Applies the unified `diff` to the text `original`: the text with each hunk's
/// deletions dropped and additions inserted, after checking every context and
/// deleted line against the source, or the reason the diff does not apply.
pub fn apply_unified_diff(original: &str, diff: &str) -> (r: Result<String, String>)
    requires
        apply_spec(original@, diff@) is Some,
    ensures
        apply_spec(original@, diff@) == outcome_view(Some(r)),
{
    match apply_unified_diff_checked(original, diff) {
        Some(r) => r,
        None => {
            assert(false);
            Err(String::new())
        },
    }
}

/// The lines of a diff that restates the first `n` lines of `orig` as
/// context after the hunk header `header`.
pub open spec fn context_diff_lines(header: Seq<char>, orig: Seq<Seq<char>>, n: nat) -> Seq<Seq<char>> {
    seq![header] + orig.take(n as int).map_values(|l: Seq<char>| seq![' '] + strip_nl(l))
}

proof fn lemma_concat_split(ls: Seq<Seq<char>>, n: int)
    requires
        0 <= n <= ls.len(),
    ensures
        concat(ls) == concat(ls.take(n)) + concat(ls.skip(n)),
    decreases ls.len(),
{
    if n == ls.len() {
        assert(ls.take(n) =~= ls);
        lemma_concat_empty_skip(ls);
        assert(concat(ls) + Seq::<char>::empty() =~= concat(ls));
    } else {
        let d = ls.drop_last();
        lemma_concat_split(d, n);
        assert(d.take(n) =~= ls.take(n));
        assert(ls.skip(n).drop_last() =~= d.skip(n));
        assert(ls.skip(n).last() == ls.last());
        assert(concat(ls.take(n)) + concat(d.skip(n)) + ls.last() =~= concat(ls.take(n)) + (concat(
            d.skip(n),
        ) + ls.last()));
    }
}

proof fn lemma_concat_take(ls: Seq<Seq<char>>, i: int)
    requires
        0 <= i < ls.len(),
    ensures
        concat(ls.take(i + 1)) == concat(ls.take(i)) + ls[i],
{
    assert(ls.take(i + 1).drop_last() =~= ls.take(i));
}

proof fn lemma_concat_empty_skip(ls: Seq<Seq<char>>)
    ensures
        concat(ls.skip(ls.len() as int)) == Seq::<char>::empty(),
{
    assert(ls.skip(ls.len() as int) =~= Seq::<Seq<char>>::empty());
}

proof fn lemma_context_run(header: Seq<char>, orig: Seq<Seq<char>>, n: nat, i: nat)
    requires
        i <= n <= orig.len(),
    ensures
        apply_from(
            orig,
            context_diff_lines(header, orig, n),
            i + 1,
            i,
            concat(orig.take(i as int)),
            true,
            true,
        ) == Some(Ok::<Seq<char>, Seq<char>>(concat(orig))),
    decreases n - i,
{
    let dl = context_diff_lines(header, orig, n);
    reveal_strlit("@@");
    reveal_strlit("\\ No newline at end of file");
    if i == n {
        lemma_concat_split(orig, n as int);
    } else {
        let line = dl[i + 1int];
        assert(line == seq![' '] + strip_nl(orig[i as int]));
        assert(line[0] == ' ');
        assert(!starts_with(line, "@@"@)) by {
            if starts_with(line, "@@"@) {
                assert(line.take(2)[0] == "@@"@[0]);
            }
        }
        assert(line != no_newline_marker()) by {
            if line == no_newline_marker() {
                assert(line[0] == no_newline_marker()[0]);
            }
        }
        if i + 2 < dl.len() {
            let next = dl[i + 2int];
            assert(next[0] == ' ');
            assert(next != no_newline_marker()) by {
                if next == no_newline_marker() {
                    assert(next[0] == no_newline_marker()[0]);
                }
            }
        }
        assert(line.drop_first() =~= strip_nl(orig[i as int]));
        lemma_concat_take(orig, i as int);
        lemma_context_run(header, orig, n, i + 1);
    }
}

/// A hunk that starts at the first line and restates the first `n` lines of
/// the source as context leaves the source unchanged.
pub proof fn law_context_only_diff_is_identity(original: Seq<char>, diff: Seq<char>, n: nat)
    requires
        n <= split_inclusive(original).len(),
        lines(diff).len() > 0,
        starts_with(lines(diff)[0], "@@"@),
        hunk_old_start(lines(diff)[0]) == Some(1nat),
        lines(diff) == context_diff_lines(lines(diff)[0], split_inclusive(original), n),
    ensures
        apply_spec(original, diff) == Some(Ok::<Seq<char>, Seq<char>>(original)),
{
    let orig = split_inclusive(original);
    let header = lines(diff)[0];
    assert(orig.subrange(0, 0) =~= Seq::<Seq<char>>::empty());
    assert(orig.take(0) =~= Seq::<Seq<char>>::empty());
    assert(Seq::<char>::empty() + concat(orig.subrange(0, 0)) =~= concat(orig.take(0)));
    lemma_context_run(header, orig, n, 0);
    lemma_concat_split_inclusive(original);
}

proof fn lemma_first_piece_bounds(s: Seq<char>)
    ensures
        s.len() > 0 ==> 0 < first_piece_len(s) <= s.len(),
    decreases s.len(),
{
    if s.len() > 0 && s[0] != '\n' {
        lemma_first_piece_bounds(s.drop_first());
        if s.len() == 1 {
            assert(first_piece_len(s.drop_first()) == 0);
        }
    }
}

proof fn lemma_concat_prepend(a: Seq<char>, ls: Seq<Seq<char>>)
    ensures
        concat(seq![a] + ls) == a + concat(ls),
    decreases ls.len(),
{
    if ls.len() == 0 {
        assert(seq![a] + ls =~= seq![a]);
        assert(seq![a].drop_last() =~= Seq::<Seq<char>>::empty());
        assert(concat(seq![a]) == concat(Seq::<Seq<char>>::empty()) + a);
        assert(a + Seq::<char>::empty() =~= a);
        assert(Seq::<char>::empty() + a =~= a);
    } else {
        assert((seq![a] + ls).drop_last() =~= seq![a] + ls.drop_last());
        assert((seq![a] + ls).last() == ls.last());
        lemma_concat_prepend(a, ls.drop_last());
        assert(a + concat(ls.drop_last()) + ls.last() =~= a + (concat(ls.drop_last()) + ls.last()));
    }
}

/// Joining the pieces of a text cut after its newlines gives the text back.
pub proof fn lemma_concat_split_inclusive(s: Seq<char>)
    ensures
        concat(split_inclusive(s)) == s,
    decreases s.len(),
{
    if s.len() > 0 {
        lemma_first_piece_bounds(s);
        let k = first_piece_len(s);
        lemma_concat_split_inclusive(s.skip(k as int));
        lemma_concat_prepend(s.take(k as int), split_inclusive(s.skip(k as int)));
        assert(s.take(k as int) + s.skip(k as int) =~= s);
    }
}

proof fn lemma_no_hunk_run(orig: Seq<Seq<char>>, dl: Seq<Seq<char>>, di: nat, oi: nat)
    requires
        di <= dl.len(),
        forall|j: int| 0 <= j < dl.len() ==> !starts_with(#[trigger] dl[j], "@@"@),
    ensures
        apply_from(orig, dl, di, oi, Seq::empty(), false, false) == Some(
            Err::<Seq<char>, Seq<char>>("No unified diff hunks were found"@),
        ),
    decreases dl.len() - di,
{
    if di < dl.len() {
        assert(!starts_with(dl[di as int], "@@"@));
        lemma_no_hunk_run(orig, dl, di + 1, oi);
    }
}

/// A diff without any hunk header is refused, whatever the source.
pub proof fn law_diff_without_hunk_is_refused(original: Seq<char>, diff: Seq<char>)
    requires
        forall|j: int| 0 <= j < lines(diff).len() ==> !starts_with(#[trigger] lines(diff)[j], "@@"@),
    ensures
        apply_spec(original, diff) == Some(
            Err::<Seq<char>, Seq<char>>("No unified diff hunks were found"@),
        ),
{
    lemma_no_hunk_run(split_inclusive(original), lines(diff), 0, 0);
}

/// A hunk at line `k + 1` that deletes that line of the source and adds
/// `added` in its place yields the source with that one line replaced (the
/// added line ends with a newline).
pub proof fn law_single_line_replacement(
    original: Seq<char>,
    diff: Seq<char>,
    k: nat,
    added: Seq<char>,
)
    requires
        k < split_inclusive(original).len(),
        lines(diff).len() == 3,
        starts_with(lines(diff)[0], "@@"@),
        hunk_old_start(lines(diff)[0]) == Some(k + 1),
        lines(diff)[1] == seq!['-'] + strip_nl(split_inclusive(original)[k as int]),
        lines(diff)[2] == seq!['+'] + added,
    ensures
        apply_spec(original, diff) == Some(
            Ok::<Seq<char>, Seq<char>>(
                concat(split_inclusive(original).take(k as int)) + added.push('\n') + concat(
                    split_inclusive(original).skip(k + 1int),
                ),
            ),
        ),
{
    let orig = split_inclusive(original);
    let dl = lines(diff);
    reveal_strlit("@@");
    reveal_strlit("\\ No newline at end of file");
    assert(copy_end(0, k, orig.len()) == k);
    assert(orig.subrange(0, k as int) =~= orig.take(k as int));
    assert(Seq::<char>::empty() + concat(orig.take(k as int)) =~= concat(orig.take(k as int)));
    let l1 = dl[1];
    assert(l1[0] == '-');
    assert(!starts_with(l1, "@@"@)) by {
        if starts_with(l1, "@@"@) {
            assert(l1.take(2)[0] == "@@"@[0]);
        }
    }
    assert(l1 != no_newline_marker()) by {
        if l1 == no_newline_marker() {
            assert(l1[0] == no_newline_marker()[0]);
        }
    }
    let l2 = dl[2];
    assert(l2[0] == '+');
    assert(l2 != no_newline_marker()) by {
        if l2 == no_newline_marker() {
            assert(l2[0] == no_newline_marker()[0]);
        }
    }
    assert(!starts_with(l2, "@@"@)) by {
        if starts_with(l2, "@@"@) {
            assert(l2.take(2)[0] == "@@"@[0]);
        }
    }
    assert(l1.drop_first() =~= strip_nl(orig[k as int]));
    assert(l2.drop_first() =~= added);
    let out1 = concat(orig.take(k as int));
    let out2 = out1 + added.push('\n');
    assert(apply_from(orig, dl, 3, k + 1, out2, true, true) == Some(
        Ok::<Seq<char>, Seq<char>>(out2 + concat(orig.skip(k + 1int))),
    ));
    assert(apply_from(orig, dl, 2, k + 1, out1, true, true) == apply_from(orig, dl, 3, k + 1, out2, true, true));
    assert(apply_from(orig, dl, 1, k, out1, true, true) == apply_from(orig, dl, 2, k + 1, out1, true, true));
    assert(hunk_target(k + 1) == k);
    assert(apply_from(orig, dl, 0, 0, Seq::empty(), false, false) == apply_from(orig, dl, 1, k, out1, true, true));
}


/// A hunk at line `k + 1` that keeps that line as context, deletes the next
/// one, adds `added` in its place and keeps the line after as context yields
/// the source with only that middle line replaced: both context lines are
/// copied, the rest of the source before and after is kept.
pub proof fn law_replacement_between_context_lines(
    original: Seq<char>,
    diff: Seq<char>,
    k: nat,
    added: Seq<char>,
)
    requires
        k + 2 < split_inclusive(original).len(),
        lines(diff).len() == 5,
        starts_with(lines(diff)[0], "@@"@),
        hunk_old_start(lines(diff)[0]) == Some(k + 1),
        lines(diff)[1] == seq![' '] + strip_nl(split_inclusive(original)[k as int]),
        lines(diff)[2] == seq!['-'] + strip_nl(split_inclusive(original)[k + 1int]),
        lines(diff)[3] == seq!['+'] + added,
        lines(diff)[4] == seq![' '] + strip_nl(split_inclusive(original)[k + 2int]),
    ensures
        apply_spec(original, diff) == Some(
            Ok::<Seq<char>, Seq<char>>(
                concat(split_inclusive(original).take(k as int)) + split_inclusive(original)[k as int]
                    + added.push('\n') + concat(split_inclusive(original).skip(k + 2int)),
            ),
        ),
{
    let orig = split_inclusive(original);
    let dl = lines(diff);
    reveal_strlit("@@");
    reveal_strlit("\\ No newline at end of file");
    assert(copy_end(0, k, orig.len()) == k);
    assert(orig.subrange(0, k as int) =~= orig.take(k as int));
    assert(Seq::<char>::empty() + concat(orig.take(k as int)) =~= concat(orig.take(k as int)));
    let l1 = dl[1];
    let l2 = dl[2];
    let l3 = dl[3];
    let l4 = dl[4];
    assert(l1[0] == ' ');
    assert(!starts_with(l1, "@@"@)) by {
        if starts_with(l1, "@@"@) {
            assert(l1.take(2)[0] == "@@"@[0]);
        }
    }
    assert(l1 != no_newline_marker()) by {
        if l1 == no_newline_marker() {
            assert(l1[0] == no_newline_marker()[0]);
        }
    }
    assert(l2[0] == '-');
    assert(!starts_with(l2, "@@"@)) by {
        if starts_with(l2, "@@"@) {
            assert(l2.take(2)[0] == "@@"@[0]);
        }
    }
    assert(l2 != no_newline_marker()) by {
        if l2 == no_newline_marker() {
            assert(l2[0] == no_newline_marker()[0]);
        }
    }
    assert(l3[0] == '+');
    assert(!starts_with(l3, "@@"@)) by {
        if starts_with(l3, "@@"@) {
            assert(l3.take(2)[0] == "@@"@[0]);
        }
    }
    assert(l3 != no_newline_marker()) by {
        if l3 == no_newline_marker() {
            assert(l3[0] == no_newline_marker()[0]);
        }
    }
    assert(l4[0] == ' ');
    assert(!starts_with(l4, "@@"@)) by {
        if starts_with(l4, "@@"@) {
            assert(l4.take(2)[0] == "@@"@[0]);
        }
    }
    assert(l4 != no_newline_marker()) by {
        if l4 == no_newline_marker() {
            assert(l4[0] == no_newline_marker()[0]);
        }
    }
    assert(l1.drop_first() =~= strip_nl(orig[k as int]));
    assert(l2.drop_first() =~= strip_nl(orig[k + 1int]));
    assert(l3.drop_first() =~= added);
    assert(l4.drop_first() =~= strip_nl(orig[k + 2int]));
    let out0 = concat(orig.take(k as int));
    let out1 = out0 + orig[k as int];
    let out2 = out1 + added.push('\n');
    let out3 = out2 + orig[k + 2int];
    assert(apply_from(orig, dl, 5, k + 3, out3, true, true) == Some(
        Ok::<Seq<char>, Seq<char>>(out3 + concat(orig.skip(k + 3int))),
    ));
    assert(apply_from(orig, dl, 4, k + 2, out2, true, true) == apply_from(orig, dl, 5, k + 3, out3, true, true));
    assert(apply_from(orig, dl, 3, k + 2, out1, true, true) == apply_from(orig, dl, 4, k + 2, out2, true, true));
    assert(apply_from(orig, dl, 2, k + 1, out1, true, true) == apply_from(orig, dl, 3, k + 2, out1, true, true));
    assert(apply_from(orig, dl, 1, k, out0, true, true) == apply_from(orig, dl, 2, k + 1, out1, true, true));
    assert(hunk_target(k + 1) == k);
    assert(apply_from(orig, dl, 0, 0, Seq::empty(), false, false) == apply_from(orig, dl, 1, k, out0, true, true));
    assert(seq![orig[k + 2int]] + orig.skip(k + 3int) =~= orig.skip(k + 2int));
    lemma_concat_prepend(orig[k + 2int], orig.skip(k + 3int));
    assert(out3 + concat(orig.skip(k + 3int)) =~= out2 + concat(orig.skip(k + 2int)));
}


proof fn lemma_plain_hunk_line(line: Seq<char>, c: char)
    requires
        line.len() > 0,
        line[0] == c,
        c == ' ' || c == '-' || c == '+',
    ensures
        !starts_with(line, "@@"@),
        line != no_newline_marker(),
        (line[0] as u32) < 0x80,
{
    reveal_strlit("@@");
    reveal_strlit("\\ No newline at end of file");
    assert(!starts_with(line, "@@"@)) by {
        if starts_with(line, "@@"@) {
            assert(line.take(2)[0] == "@@"@[0]);
        }
    }
    assert(line != no_newline_marker()) by {
        if line == no_newline_marker() {
            assert(line[0] == no_newline_marker()[0]);
        }
    }
}

/// Inside a hunk, each line is applied on its own, whatever lines came before
/// it: a context line that matches the next source line copies that line to
/// the output; a deletion line that matches it skips it; an addition line
/// writes its text and a newline (none when the diff marks it as having no
/// final newline). In each case the source line is consumed (or, for an
/// addition, kept) and application goes on with the next diff line.
pub proof fn law_hunk_lines_apply_one_by_one(
    orig: Seq<Seq<char>>,
    dl: Seq<Seq<char>>,
    di: nat,
    oi: nat,
    out: Seq<char>,
    saw: bool,
)
    requires
        di < dl.len(),
        dl[di as int].len() > 0,
    ensures
        ({
            let line = dl[di as int];
            let no_nl = di + 1 < dl.len() && dl[di + 1int] == no_newline_marker();
            let next: nat = if no_nl {
                di + 2
            } else {
                di + 1
            };
            &&& (line[0] == ' ' && oi < orig.len() && line.drop_first() == strip_nl(orig[oi as int]))
                ==> apply_from(orig, dl, di, oi, out, saw, true) == apply_from(
                orig,
                dl,
                next,
                oi + 1,
                out + orig[oi as int],
                saw,
                true,
            )
            &&& (line[0] == '-' && oi < orig.len() && line.drop_first() == strip_nl(orig[oi as int]))
                ==> apply_from(orig, dl, di, oi, out, saw, true) == apply_from(
                orig,
                dl,
                next,
                oi + 1,
                out,
                saw,
                true,
            )
            &&& line[0] == '+' ==> apply_from(orig, dl, di, oi, out, saw, true) == apply_from(
                orig,
                dl,
                next,
                oi,
                out + (if no_nl {
                    line.drop_first()
                } else {
                    line.drop_first().push('\n')
                }),
                saw,
                true,
            )
        }),
{
    let line = dl[di as int];
    if line[0] == ' ' || line[0] == '-' || line[0] == '+' {
        lemma_plain_hunk_line(line, line[0]);
    }
}

} // verus!
