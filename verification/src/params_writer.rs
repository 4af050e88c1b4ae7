//! Turning the rustc flags of a build action into the parameter list that the
//! mutation runner replays for each mutant: `@file` indirections expanded,
//! build-script flags appended, execroot prefixes stripped, the crate root
//! replaced by a placeholder and output-shaping flags dropped.
use vstd::prelude::*;
use crate::text::{
    chars_eq, chars_of, has_prefix, lines, nonempty_trimmed, nonempty_trimmed_lines, push_str,
    replace_all, replace_chars, slice_chars, starts_with, string_of, trim, trim_chars, views,
};

verus! {

/// The writer's settings.
#[derive(Debug)]
pub struct Options {
    /// Where the parameter list is written.
    pub output: String,
    /// The token that stands for the crate root.
    pub crate_root_placeholder: String,
    /// Execroot prefixes to strip from every argument.
    pub strip_prefixes: Vec<String>,
    /// Files of flags produced by build scripts.
    pub build_flags_files: Vec<String>,
    /// The rustc arguments of the build action.
    pub action_argv: Vec<String>,
}

/// Why the writer's command line was refused.
#[derive(Debug, Clone, PartialEq, Eq)]
pub enum WriterArgsError {
    /// No `--` separates the writer's arguments from the action's.
    MissingSplitMarker,
    /// An argument that the writer does not know.
    UnknownArgument(String),
    /// No `--output=<path>`.
    MissingOutput,
    /// No `--crate-root-placeholder=<token>`.
    MissingPlaceholder,
}

/// What the writer's own arguments set, before the required ones are checked.
pub struct WriterSettings {
    pub output: Option<Seq<char>>,
    pub placeholder: Option<Seq<char>>,
    pub strip_prefixes: Seq<Seq<char>>,
    pub build_flags_files: Seq<Seq<char>>,
}

/// The settings made by the writer arguments `args`, or the first argument
/// that is not one of `--output=`, `--crate-root-placeholder=`,
/// `--strip-prefix=` and `--build-flags-file=`; a later setting of the same
/// single-valued option wins.
pub open spec fn writer_scan(args: Seq<Seq<char>>) -> Result<WriterSettings, Seq<char>>
    decreases args.len(),
{
    if args.len() == 0 {
        Ok(
            WriterSettings {
                output: None,
                placeholder: None,
                strip_prefixes: Seq::empty(),
                build_flags_files: Seq::empty(),
            },
        )
    } else {
        match writer_scan(args.drop_last()) {
            Err(a) => Err(a),
            Ok(st) => {
                let a = args.last();
                if starts_with(a, "--output="@) {
                    Ok(WriterSettings { output: Some(a.skip(9)), ..st })
                } else if starts_with(a, "--crate-root-placeholder="@) {
                    Ok(WriterSettings { placeholder: Some(a.skip(25)), ..st })
                } else if starts_with(a, "--strip-prefix="@) {
                    Ok(WriterSettings { strip_prefixes: st.strip_prefixes.push(a.skip(15)), ..st })
                } else if starts_with(a, "--build-flags-file="@) {
                    Ok(
                        WriterSettings {
                            build_flags_files: st.build_flags_files.push(a.skip(19)),
                            ..st
                        },
                    )
                } else {
                    Err(a)
                }
            },
        }
    }
}

/// First position of `--` in the command line.
pub open spec fn split_marker(raw: Seq<Seq<char>>) -> Option<nat>
    decreases raw.len(),
{
    if raw.len() == 0 {
        None
    } else if raw[0] == "--"@ {
        Some(0)
    } else {
        match split_marker(raw.drop_first()) {
            Some(k) => Some(k + 1),
            None => None,
        }
    }
}

/// The writer's settings from its whole command line (program name first):
/// the arguments between the program name and the first `--` are the
/// writer's, those after it the build action's.
pub open spec fn writer_options(raw: Seq<Seq<char>>) -> Result<
    (Seq<char>, Seq<char>, Seq<Seq<char>>, Seq<Seq<char>>, Seq<Seq<char>>),
    WriterArgsErrorView,
> {
    match split_marker(raw) {
        None => Err(WriterArgsErrorView::MissingSplitMarker),
        Some(split) => match writer_scan(raw.subrange(1, split as int)) {
            Err(a) => Err(WriterArgsErrorView::UnknownArgument(a)),
            Ok(st) => match st.output {
                None => Err(WriterArgsErrorView::MissingOutput),
                Some(out) => match st.placeholder {
                    None => Err(WriterArgsErrorView::MissingPlaceholder),
                    Some(ph) => Ok(
                        (
                            out,
                            ph,
                            st.strip_prefixes,
                            st.build_flags_files,
                            raw.skip(split + 1int),
                        ),
                    ),
                },
            },
        },
    }
}

/// The view of a writer argument error.
pub enum WriterArgsErrorView {
    MissingSplitMarker,
    UnknownArgument(Seq<char>),
    MissingOutput,
    MissingPlaceholder,
}

/// The view of a writer argument error.
pub open spec fn writer_error_view(e: WriterArgsError) -> WriterArgsErrorView {
    match e {
        WriterArgsError::MissingSplitMarker => WriterArgsErrorView::MissingSplitMarker,
        WriterArgsError::UnknownArgument(a) => WriterArgsErrorView::UnknownArgument(a@),
        WriterArgsError::MissingOutput => WriterArgsErrorView::MissingOutput,
        WriterArgsError::MissingPlaceholder => WriterArgsErrorView::MissingPlaceholder,
    }
}

/// The view of the writer's settings.
pub open spec fn options_view(o: Options) -> (
    Seq<char>,
    Seq<char>,
    Seq<Seq<char>>,
    Seq<Seq<char>>,
    Seq<Seq<char>>,
) {
    (
        o.output@,
        o.crate_root_placeholder@,
        views(o.strip_prefixes@),
        views(o.build_flags_files@),
        views(o.action_argv@),
    )
}

/// The number of bytes of the UTF-8 encoding of `c`.
pub open spec fn utf8_width(c: char) -> nat {
    let u = c as u32;
    if u < 0x80 {
        1
    } else if u < 0x800 {
        2
    } else if u < 0x10000 {
        3
    } else {
        4
    }
}

/// The number of bytes of the UTF-8 encoding of `s`, as `str::len`.
pub open spec fn utf8_len(s: Seq<char>) -> nat
    decreases s.len(),
{
    if s.len() == 0 {
        0
    } else {
        utf8_len(s.drop_last()) + utf8_width(s.last())
    }
}

/// `s` without its trailing slashes.
pub open spec fn trim_end_slashes(s: Seq<char>) -> Seq<char>
    decreases s.len(),
{
    if s.len() > 0 && s.last() == '/' {
        trim_end_slashes(s.drop_last())
    } else {
        s
    }
}

/// The trimmed, non-blank prefixes of `ps`, each without trailing slashes.
pub open spec fn cleaned_prefixes(ps: Seq<Seq<char>>) -> Seq<Seq<char>>
    decreases ps.len(),
{
    if ps.len() == 0 {
        Seq::empty()
    } else {
        let rest = cleaned_prefixes(ps.drop_last());
        let t = trim(ps.last());
        if t.len() == 0 {
            rest
        } else {
            rest.push(trim_end_slashes(t))
        }
    }
}

/// Where `x` goes in `sorted`: before the first element that is shorter in
/// bytes.
pub open spec fn insert_pos(sorted: Seq<Seq<char>>, x: Seq<char>) -> nat
    decreases sorted.len(),
{
    if sorted.len() == 0 {
        0
    } else if utf8_len(sorted[0]) < utf8_len(x) {
        0
    } else {
        1 + insert_pos(sorted.drop_first(), x)
    }
}

/// `s` sorted by byte length, longest first, keeping the order of elements of
/// equal length (a stable sort).
pub open spec fn sort_longest_first(s: Seq<Seq<char>>) -> Seq<Seq<char>>
    decreases s.len(),
{
    if s.len() == 0 {
        Seq::empty()
    } else {
        let sorted = sort_longest_first(s.drop_last());
        sorted.insert(insert_pos(sorted, s.last()) as int, s.last())
    }
}

/// `s` with each run of equal adjacent elements reduced to its first.
pub open spec fn dedup(s: Seq<Seq<char>>) -> Seq<Seq<char>>
    decreases s.len(),
{
    if s.len() == 0 {
        Seq::empty()
    } else {
        let d = dedup(s.drop_last());
        if d.len() > 0 && d.last() == s.last() {
            d
        } else {
            d.push(s.last())
        }
    }
}

/// The prefixes to strip, cleaned, longest first and without repeats.
pub open spec fn normalized_prefixes(ps: Seq<Seq<char>>) -> Seq<Seq<char>> {
    dedup(sort_longest_first(cleaned_prefixes(ps)))
}

/// `arg` with every occurrence of `p/`, for each `p` of `prefixes` in turn,
/// removed.
pub open spec fn strip_all(arg: Seq<char>, prefixes: Seq<Seq<char>>) -> Seq<char>
    decreases prefixes.len(),
{
    if prefixes.len() == 0 {
        arg
    } else {
        replace_all(
            strip_all(arg, prefixes.drop_last()),
            prefixes.last().push('/'),
            Seq::empty(),
        )
    }
}

/// A flag that shapes the action's own outputs.
pub open spec fn is_output_flag(arg: Seq<char>) -> bool {
    starts_with(arg, "--emit="@) || starts_with(arg, "--out-dir="@)
}

/// The arguments that `arg` expands to: the non-blank trimmed lines of its
/// parameter file when it has one, else itself.
pub open spec fn expansion(arg: Seq<char>, file: Option<Seq<char>>) -> Seq<Seq<char>> {
    match file {
        Some(content) => nonempty_trimmed(lines(content)),
        None => seq![arg],
    }
}

/// The action's arguments with every `@file` argument replaced by the
/// arguments that its file holds.
pub open spec fn expand_all(argv: Seq<Seq<char>>, files: Seq<Option<Seq<char>>>) -> Seq<
    Seq<char>,
>
    decreases argv.len(),
{
    if argv.len() == 0 || files.len() == 0 {
        Seq::empty()
    } else {
        expand_all(argv.drop_last(), files.drop_last()) + expansion(argv.last(), files.last())
    }
}

/// The flags that the build-flag files with contents `contents` hold, in order.
pub open spec fn all_flag_lines(contents: Seq<Seq<char>>) -> Seq<Seq<char>>
    decreases contents.len(),
{
    if contents.len() == 0 {
        Seq::empty()
    } else {
        all_flag_lines(contents.drop_last()) + nonempty_trimmed(lines(contents.last()))
    }
}

/// The replayed parameters made from `args` so far, and whether the crate
/// root was met: empty arguments vanish, the first one that does not start
/// with `-` becomes `placeholder`, output-shaping flags are dropped.
pub open spec fn runtime_scan(
    args: Seq<Seq<char>>,
    prefixes: Seq<Seq<char>>,
    placeholder: Seq<char>,
) -> (Seq<Seq<char>>, bool)
    decreases args.len(),
{
    if args.len() == 0 {
        (Seq::empty(), false)
    } else {
        let (acc, replaced) = runtime_scan(args.drop_last(), prefixes, placeholder);
        let arg = strip_all(args.last(), prefixes);
        if arg.len() == 0 {
            (acc, replaced)
        } else if !replaced && !starts_with(arg, "-"@) {
            (acc.push(placeholder), true)
        } else if is_output_flag(arg) {
            (acc, replaced)
        } else {
            (acc.push(arg), replaced)
        }
    }
}

/// The views of a list of optional strings.
pub open spec fn opt_views(v: Seq<Option<String>>) -> Seq<Option<Seq<char>>> {
    v.map_values(|o: Option<String>| match o {
        Some(s) => Some(s@),
        None => None,
    })
}

/// The runtime parameters of `options`, given the contents of its parameter
/// files (`param_files[i]` for the argument `action_argv[i]`) and of its
/// build-flag files.
pub open spec fn runtime_params(
    options: Options,
    param_files: Seq<Option<Seq<char>>>,
    flag_contents: Seq<Seq<char>>,
) -> Result<Seq<Seq<char>>, Seq<char>> {
    let args = expand_all(views(options.action_argv@), param_files) + all_flag_lines(
        flag_contents,
    );
    let (params, replaced) = runtime_scan(
        args,
        normalized_prefixes(views(options.strip_prefixes@)),
        options.crate_root_placeholder@,
    );
    if replaced {
        Ok(params)
    } else {
        Err("Failed to locate crate root positional argument in rustc flags"@)
    }
}

/// The path of the parameter file that `arg` refers to (`@path`).
pub fn param_file_path(arg: &str) -> (r: Option<String>)
    ensures
        r is Some <==> (arg@.len() > 0 && arg@[0] == '@'),
        r matches Some(p) ==> p@ == arg@.drop_first(),
{
    let v = chars_of(arg);
    if v.len() > 0 && v[0] == '@' {
        let rest = slice_chars(&v, 1, v.len());
        Some(string_of(&rest))
    } else {
        None
    }
}

/// The arguments that a parameter file holds: its non-blank lines, trimmed.
pub fn param_file_args(content: &str) -> (r: Vec<String>)
    ensures
        views(r@) == nonempty_trimmed(lines(content@)),
{
    nonempty_trimmed_lines(content)
}

/// The action's arguments with every `@file` argument replaced by the
/// arguments that its file holds; `param_files[i]` is the content of the
/// file that `action_argv[i]` refers to, when it refers to one.
pub fn expand_action_args(action_argv: &Vec<String>, param_files: &Vec<Option<String>>) -> (r:
    Vec<String>)
    requires
        param_files@.len() == action_argv@.len(),
        forall|i: int|
            0 <= i < action_argv@.len() ==> ((#[trigger] param_files@[i]) is Some <==> (
            action_argv@[i]@.len() > 0 && action_argv@[i]@[0] == '@')),
    ensures
        views(r@) == expand_all(views(action_argv@), opt_views(param_files@)),
{
    let mut r: Vec<String> = Vec::new();
    let mut i: usize = 0;
    while i < action_argv.len()
        invariant
            i <= action_argv.len(),
            param_files@.len() == action_argv@.len(),
            views(r@) == expand_all(
                views(action_argv@).take(i as int),
                opt_views(param_files@).take(i as int),
            ),
        decreases action_argv.len() - i,
    {
        proof {
            let a = views(action_argv@).take(i + 1);
            let f = opt_views(param_files@).take(i + 1);
            assert(a.drop_last() =~= views(action_argv@).take(i as int));
            assert(f.drop_last() =~= opt_views(param_files@).take(i as int));
            assert(a.last() == action_argv@[i as int]@);
        }
        let ghost before = views(r@);
        match &param_files[i] {
            Some(content) => {
                let lines = param_file_args(content.as_str());
                let mut k: usize = 0;
                while k < lines.len()
                    invariant
                        k <= lines.len(),
                        views(r@) == before + views(lines@).take(k as int),
                    decreases lines.len() - k,
                {
                    let ghost r0 = r@;
                    r.push(lines[k].clone());
                    assert(views(r@) =~= views(r0).push(lines@[k as int]@));
                    k += 1;
                    assert(views(r@) =~= before + views(lines@).take(k as int));
                }
                assert(views(lines@).take(k as int) =~= views(lines@));
            },
            None => {
                r.push(action_argv[i].clone());
                assert(views(r@) =~= before + seq![action_argv@[i as int]@]);
            },
        }
        i += 1;
    }
    assert(views(action_argv@).take(i as int) =~= views(action_argv@));
    assert(opt_views(param_files@).take(i as int) =~= opt_views(param_files@));
    r
}

/// The flags held by the build-flag files with contents `contents`: the
/// non-blank lines of each, trimmed, in order.
pub fn read_build_flags(contents: &Vec<String>) -> (r: Vec<String>)
    ensures
        views(r@) == all_flag_lines(views(contents@)),
{
    let mut r: Vec<String> = Vec::new();
    let mut i: usize = 0;
    while i < contents.len()
        invariant
            i <= contents.len(),
            views(r@) == all_flag_lines(views(contents@).take(i as int)),
        decreases contents.len() - i,
    {
        proof {
            let c = views(contents@).take(i + 1);
            assert(c.drop_last() =~= views(contents@).take(i as int));
        }
        let ghost before = views(r@);
        let lines = nonempty_trimmed_lines(contents[i].as_str());
        let mut k: usize = 0;
        while k < lines.len()
            invariant
                k <= lines.len(),
                views(r@) == before + views(lines@).take(k as int),
            decreases lines.len() - k,
        {
            let ghost r0 = r@;
            r.push(lines[k].clone());
            assert(views(r@) =~= views(r0).push(lines@[k as int]@));
            k += 1;
            assert(views(r@) =~= before + views(lines@).take(k as int));
        }
        assert(views(lines@).take(k as int) =~= views(lines@));
        i += 1;
    }
    assert(views(contents@).take(i as int) =~= views(contents@));
    r
}

/// The number of bytes of the UTF-8 encoding of `s`.
fn utf8_len_chars(s: &Vec<char>) -> (r: u128)
    ensures
        r as nat == utf8_len(s@),
{
    let mut n: u128 = 0;
    let mut i: usize = 0;
    while i < s.len()
        invariant
            i <= s.len(),
            n as nat == utf8_len(s@.take(i as int)),
            n <= 4 * i,
        decreases s.len() - i,
    {
        assert(s@.take(i + 1).drop_last() =~= s@.take(i as int));
        let u = s[i] as u32;
        let w: u128 = if u < 0x80 {
            1
        } else if u < 0x800 {
            2
        } else if u < 0x10000 {
            3
        } else {
            4
        };
        n = n + w;
        i += 1;
    }
    assert(s@.take(i as int) =~= s@);
    n
}

/// `s` without its trailing slashes.
fn trim_end_slashes_chars(s: &Vec<char>) -> (r: Vec<char>)
    ensures
        r@ == trim_end_slashes(s@),
{
    let mut j: usize = s.len();
    assert(s@.take(j as int) =~= s@);
    while j > 0 && s[j - 1] == '/'
        invariant
            j <= s.len(),
            trim_end_slashes(s@) == trim_end_slashes(s@.take(j as int)),
        decreases j,
    {
        assert(s@.take(j as int).drop_last() =~= s@.take(j - 1));
        j -= 1;
    }
    proof {
        let t = s@.take(j as int);
        if t.len() > 0 {
            assert(t.last() == s@[j - 1]);
        }
        assert(s@.take(s.len() as int) =~= s@);
    }
    slice_chars(s, 0, j)
}

/// The prefixes to strip: trimmed, blank ones left out, trailing slashes
/// removed, longest (in bytes) first with ties kept in their order, and
/// adjacent repeats removed.
pub fn normalize_strip_prefixes(prefixes: &Vec<String>) -> (r: Vec<String>)
    ensures
        views(r@) == normalized_prefixes(views(prefixes@)),
{
    // Clean each prefix, remembering its byte length.
    let mut cleaned: Vec<Vec<char>> = Vec::new();
    let mut keys: Vec<u128> = Vec::new();
    let mut i: usize = 0;
    while i < prefixes.len()
        invariant
            i <= prefixes.len(),
            crate::text::vviews(cleaned@) == cleaned_prefixes(views(prefixes@).take(i as int)),
            keys@.len() == cleaned@.len(),
            forall|k: int| 0 <= k < keys@.len() ==> #[trigger] keys@[k] as nat == utf8_len(cleaned@[k]@),
        decreases prefixes.len() - i,
    {
        proof {
            let c = views(prefixes@).take(i + 1);
            assert(c.drop_last() =~= views(prefixes@).take(i as int));
            assert(c.last() == prefixes@[i as int]@);
        }
        let pv = chars_of(prefixes[i].as_str());
        let t = trim_chars(&pv);
        if t.len() > 0 {
            let c = trim_end_slashes_chars(&t);
            let key = utf8_len_chars(&c);
            let ghost old_cleaned = cleaned@;
            cleaned.push(c);
            keys.push(key);
            assert(crate::text::vviews(cleaned@) =~= crate::text::vviews(old_cleaned).push(
                cleaned@[cleaned@.len() - 1]@,
            ));
        }
        i += 1;
    }
    assert(views(prefixes@).take(i as int) =~= views(prefixes@));
    // Stable insertion sort, longest first.
    let ghost cv = crate::text::vviews(cleaned@);
    let mut sorted: Vec<Vec<char>> = Vec::new();
    let mut skeys: Vec<u128> = Vec::new();
    let mut j: usize = 0;
    while j < cleaned.len()
        invariant
            j <= cleaned.len(),
            cv == crate::text::vviews(cleaned@),
            keys@.len() == cleaned@.len(),
            forall|k: int| 0 <= k < keys@.len() ==> #[trigger] keys@[k] as nat == utf8_len(cleaned@[k]@),
            crate::text::vviews(sorted@) == sort_longest_first(cv.take(j as int)),
            skeys@.len() == sorted@.len(),
            forall|k: int| 0 <= k < skeys@.len() ==> #[trigger] skeys@[k] as nat == utf8_len(sorted@[k]@),
        decreases cleaned.len() - j,
    {
        let key = keys[j];
        let ghost x = cv[j as int];
        assert(cleaned@[j as int]@ == x);
        let mut p: usize = 0;
        assert(crate::text::vviews(sorted@).skip(0) =~= crate::text::vviews(sorted@));
        while p < sorted.len() && skeys[p] >= key
            invariant
                p <= sorted.len(),
                skeys@.len() == sorted@.len(),
                forall|k: int| 0 <= k < skeys@.len() ==> #[trigger] skeys@[k] as nat == utf8_len(sorted@[k]@),
                key as nat == utf8_len(x),
                insert_pos(crate::text::vviews(sorted@), x) == p + insert_pos(
                    crate::text::vviews(sorted@).skip(p as int),
                    x,
                ),
            decreases sorted.len() - p,
        {
            proof {
                let t = crate::text::vviews(sorted@).skip(p as int);
                assert(t[0] == sorted@[p as int]@);
                assert(t.drop_first() =~= crate::text::vviews(sorted@).skip(p + 1));
            }
            p += 1;
        }
        proof {
            let t = crate::text::vviews(sorted@).skip(p as int);
            if p < sorted.len() {
                assert(t[0] == sorted@[p as int]@);
            }
            assert(insert_pos(t, x) == 0);
            assert(cv.take(j + 1).drop_last() =~= cv.take(j as int));
            assert(cv.take(j + 1).last() == x);
        }
        let ghost old_sorted = sorted@;
        let ghost old_skeys = skeys@;
        sorted.insert(p, cleaned[j].clone());
        skeys.insert(p, key);
        proof {
            assert(crate::text::vviews(sorted@) =~= crate::text::vviews(old_sorted).insert(
                p as int,
                x,
            ));
            assert forall|k: int| 0 <= k < skeys@.len() implies #[trigger] skeys@[k] as nat
                == utf8_len(sorted@[k]@) by {
                if k < p {
                    assert(skeys@[k] == old_skeys[k]);
                    assert(sorted@[k] == old_sorted[k]);
                } else if k > p {
                    assert(skeys@[k] == old_skeys[k - 1]);
                    assert(sorted@[k] == old_sorted[k - 1]);
                }
            }
        }
        j += 1;
    }
    assert(cv.take(j as int) =~= cv);
    // Remove adjacent repeats.
    let ghost sv = crate::text::vviews(sorted@);
    let mut r: Vec<String> = Vec::new();
    let mut last: Vec<char> = Vec::new();
    let mut m: usize = 0;
    while m < sorted.len()
        invariant
            m <= sorted.len(),
            sv == crate::text::vviews(sorted@),
            views(r@) == dedup(sv.take(m as int)),
            r@.len() > 0 ==> last@ == views(r@).last(),
        decreases sorted.len() - m,
    {
        proof {
            assert(sv.take(m + 1).drop_last() =~= sv.take(m as int));
            assert(sv.take(m + 1).last() == sorted@[m as int]@);
        }
        if r.len() > 0 && chars_eq(&last, &sorted[m]) {
        } else {
            let s = string_of(&sorted[m]);
            let ghost before = views(r@);
            r.push(s);
            assert(views(r@) =~= before.push(sorted@[m as int]@));
            last = sorted[m].clone();
        }
        m += 1;
    }
    assert(sv.take(m as int) =~= sv);
    r
}

proof fn lemma_trim_end_slashes_len_le(s: Seq<char>)
    ensures
        trim_end_slashes(s).len() <= s.len(),
    decreases s.len(),
{
    if s.len() > 0 {
        lemma_trim_end_slashes_len_le(s.drop_last());
    }
}

fn strip_all_chars(arg: &Vec<char>, prefixes: &Vec<String>) -> (r: Vec<char>)
    ensures
        r@ == strip_all(arg@, views(prefixes@)),
{
    let mut out = arg.clone();
    let empty: Vec<char> = Vec::new();
    let mut i: usize = 0;
    assert(views(prefixes@).take(0) =~= Seq::<Seq<char>>::empty());
    while i < prefixes.len()
        invariant
            i <= prefixes.len(),
            empty@.len() == 0,
            out@ == strip_all(arg@, views(prefixes@).take(i as int)),
        decreases prefixes.len() - i,
    {
        let mut with_sep = chars_of(prefixes[i].as_str());
        with_sep.push('/');
        proof {
            let p = views(prefixes@).take(i + 1);
            assert(p.drop_last() =~= views(prefixes@).take(i as int));
            assert(p.last() == prefixes@[i as int]@);
            assert(empty@ =~= Seq::<char>::empty());
        }
        out = replace_chars(&out, &with_sep, &empty);
        i += 1;
    }
    assert(views(prefixes@).take(i as int) =~= views(prefixes@));
    out
}

/// `arg` with every occurrence of `p/`, for each prefix `p` in turn, removed.
pub fn strip_execroot_prefixes(arg: &str, strip_prefixes: &Vec<String>) -> (r: String)
    ensures
        r@ == strip_all(arg@, views(strip_prefixes@)),
{
    let av = chars_of(arg);
    let out = strip_all_chars(&av, strip_prefixes);
    string_of(&out)
}

fn is_output_flag_chars(arg: &Vec<char>) -> (r: bool)
    ensures
        r == is_output_flag(arg@),
{
    let emit = chars_of("--emit=");
    let out_dir = chars_of("--out-dir=");
    has_prefix(arg, &emit) || has_prefix(arg, &out_dir)
}

/// Whether `arg` shapes the action's own outputs (`--emit=`, `--out-dir=`),
/// which the runner sets itself.
pub fn should_drop_arg(arg: &str) -> (r: bool)
    ensures
        r == is_output_flag(arg@),
{
    let av = chars_of(arg);
    is_output_flag_chars(&av)
}

/// The parameter list that the runner replays: the action's arguments (with
/// `@file` arguments expanded from `param_files`) followed by the build-script
/// flags held in `flag_contents`, each stripped of the normalized execroot
/// prefixes; empty ones left out, the crate root (the first that does not
/// start with `-`) replaced by the placeholder and `--emit=`/`--out-dir=`
/// flags dropped. An error when there is no crate root.
pub fn build_runtime_params(
    options: &Options,
    param_files: &Vec<Option<String>>,
    flag_contents: &Vec<String>,
) -> (r: Result<Vec<String>, String>)
    requires
        param_files@.len() == options.action_argv@.len(),
        forall|i: int|
            0 <= i < options.action_argv@.len() ==> ((#[trigger] param_files@[i]) is Some <==> (
            options.action_argv@[i]@.len() > 0 && options.action_argv@[i]@[0] == '@')),
    ensures
        r matches Ok(v) ==> runtime_params(*options, opt_views(param_files@), views(flag_contents@))
            == Ok::<Seq<Seq<char>>, Seq<char>>(views(v@)),
        r matches Err(e) ==> runtime_params(*options, opt_views(param_files@), views(flag_contents@))
            == Err::<Seq<Seq<char>>, Seq<char>>(e@),
{
    let prefixes = normalize_strip_prefixes(&options.strip_prefixes);
    let mut args = expand_action_args(&options.action_argv, param_files);
    let flags = read_build_flags(flag_contents);
    let ghost expanded = views(args@);
    let mut k: usize = 0;
    while k < flags.len()
        invariant
            k <= flags.len(),
            views(args@) == expanded + views(flags@).take(k as int),
        decreases flags.len() - k,
    {
        let ghost a0 = args@;
        args.push(flags[k].clone());
        assert(views(args@) =~= views(a0).push(flags@[k as int]@));
        k += 1;
        assert(views(args@) =~= expanded + views(flags@).take(k as int));
    }
    assert(views(flags@).take(k as int) =~= views(flags@));
    let ghost all = views(args@);
    let ghost pv = views(prefixes@);
    let placeholder = chars_of(options.crate_root_placeholder.as_str());
    let dash = chars_of("-");
    let mut runtime_args: Vec<String> = Vec::new();
    let mut replaced = false;
    let mut i: usize = 0;
    while i < args.len()
        invariant
            i <= args.len(),
            all == views(args@),
            pv == views(prefixes@),
            placeholder@ == options.crate_root_placeholder@,
            dash@ == "-"@,
            (views(runtime_args@), replaced) == runtime_scan(
                all.take(i as int),
                pv,
                options.crate_root_placeholder@,
            ),
        decreases args.len() - i,
    {
        proof {
            assert(all.take(i + 1).drop_last() =~= all.take(i as int));
            assert(all.take(i + 1).last() == args@[i as int]@);
        }
        let av = chars_of(args[i].as_str());
        let arg = strip_all_chars(&av, &prefixes);
        let ghost before = views(runtime_args@);
        if arg.len() == 0 {
        } else if !replaced && !has_prefix(&arg, &dash) {
            runtime_args.push(options.crate_root_placeholder.clone());
            replaced = true;
            assert(views(runtime_args@) =~= before.push(options.crate_root_placeholder@));
        } else if is_output_flag_chars(&arg) {
        } else {
            runtime_args.push(string_of(&arg));
            assert(views(runtime_args@) =~= before.push(arg@));
        }
        i += 1;
    }
    assert(all.take(i as int) =~= all);
    if !replaced {
        let mut msg: Vec<char> = Vec::new();
        push_str(&mut msg, "Failed to locate crate root positional argument in rustc flags");
        return Err(string_of(&msg));
    }
    Ok(runtime_args)
}

/// The view of the writer's settings while its arguments are read.
pub open spec fn settings_view(
    output: Option<String>,
    placeholder: Option<String>,
    strip_prefixes: Seq<String>,
    build_flags_files: Seq<String>,
) -> WriterSettings {
    WriterSettings {
        output: match output {
            Some(o) => Some(o@),
            None => None,
        },
        placeholder: match placeholder {
            Some(p) => Some(p@),
            None => None,
        },
        strip_prefixes: views(strip_prefixes),
        build_flags_files: views(build_flags_files),
    }
}

/// The position of the first `--` in `raw`.
fn find_split_marker(raw: &Vec<String>) -> (r: Option<usize>)
    ensures
        r matches Some(k) ==> split_marker(views(raw@)) == Some(k as nat) && k < raw@.len(),
        r is None ==> split_marker(views(raw@)) is None,
{
    let ghost rv = views(raw@);
    let marker = chars_of("--");
    let mut split: usize = 0;
    assert(rv.skip(0) =~= rv);
    while split < raw.len()
        invariant
            split <= raw.len(),
            rv == views(raw@),
            marker@ == "--"@,
            split_marker(rv) == shift(split_marker(rv.skip(split as int)), split as nat),
        decreases raw.len() - split,
    {
        let av = chars_of(raw[split].as_str());
        proof {
            let t = rv.skip(split as int);
            assert(t[0] == raw@[split as int]@);
            assert(t.drop_first() =~= rv.skip(split + 1));
        }
        if chars_eq(&av, &marker) {
            return Some(split);
        }
        split += 1;
    }
    assert(rv.skip(split as int) =~= Seq::<Seq<char>>::empty());
    None
}

proof fn lemma_writer_scan_err(s: Seq<Seq<char>>, i: int)
    requires
        0 <= i <= s.len(),
        writer_scan(s.take(i)) is Err,
    ensures
        writer_scan(s) == writer_scan(s.take(i)),
    decreases s.len(),
{
    if i < s.len() {
        assert(s.drop_last().take(i) =~= s.take(i));
        lemma_writer_scan_err(s.drop_last(), i);
    } else {
        assert(s.take(i) =~= s);
    }
}

/// `o` moved by `d`.
pub open spec fn shift(o: Option<nat>, d: nat) -> Option<nat> {
    match o {
        Some(k) => Some(k + d),
        None => None,
    }
}

/// The rest of `a` after the literal prefix `p`, when `a` starts with it.
fn after_prefix(a: &Vec<char>, p: &str) -> (r: Option<String>)
    ensures
        r is Some <==> starts_with(a@, p@),
        r matches Some(s) ==> s@ == a@.skip(p@.len() as int),
{
    let pv = chars_of(p);
    if has_prefix(a, &pv) {
        let rest = slice_chars(a, pv.len(), a.len());
        Some(string_of(&rest))
    } else {
        None
    }
}

/// Reads the writer's command line (program name first): its own arguments
/// up to the first `--`, the build action's after it. An error names the
/// first unknown argument, or the missing marker, output or placeholder.
pub fn parse_writer_args(raw: &Vec<String>) -> (r: Result<Options, WriterArgsError>)
    requires
        !(raw@.len() > 0 && raw@[0]@ == "--"@),
    ensures
        r matches Ok(o) ==> writer_options(views(raw@)) == Ok::<_, WriterArgsErrorView>(options_view(o)),
        r matches Err(e) ==> writer_options(views(raw@)) == Err::<(Seq<char>, Seq<char>, Seq<Seq<char>>, Seq<Seq<char>>, Seq<Seq<char>>), _>(writer_error_view(e)),
{
    let ghost rv = views(raw@);
    let split = match find_split_marker(raw) {
        Some(k) => k,
        None => return Err(WriterArgsError::MissingSplitMarker),
    };
    proof {
        assert(rv[0] == raw@[0]@);
    }
    // `raw[0]` is not `--`, so the writer's arguments are `raw[1..split]`.
    assert(split >= 1);
    let ghost wargs = rv.subrange(1, split as int);
    let mut output: Option<String> = None;
    let mut placeholder: Option<String> = None;
    let mut strip_prefixes: Vec<String> = Vec::new();
    let mut build_flags_files: Vec<String> = Vec::new();
    let mut i: usize = 1;
    assert(wargs.take(0) =~= Seq::<Seq<char>>::empty());
    assert(views(strip_prefixes@) =~= Seq::<Seq<char>>::empty());
    assert(views(build_flags_files@) =~= Seq::<Seq<char>>::empty());
    while i < split
        invariant
            1 <= i <= split < raw.len(),
            rv == views(raw@),
            wargs == rv.subrange(1, split as int),
            split_marker(rv) == Some(split as nat),
            writer_scan(wargs.take(i - 1)) == Ok::<WriterSettings, Seq<char>>(
                settings_view(output, placeholder, strip_prefixes@, build_flags_files@),
            ),
        decreases split - i,
    {
        let av = chars_of(raw[i].as_str());
        proof {
            let w = wargs.take(i as int);
            assert(w.drop_last() =~= wargs.take(i - 1));
            assert(w.last() == raw@[i as int]@);
        }
        match after_prefix(&av, "--output=") {
            Some(v) => {
                proof { reveal_strlit("--output="); }
                output = Some(v);
                i += 1;
                continue;
            },
            None => {},
        }
        match after_prefix(&av, "--crate-root-placeholder=") {
            Some(v) => {
                proof { reveal_strlit("--crate-root-placeholder="); }
                placeholder = Some(v);
                i += 1;
                continue;
            },
            None => {},
        }
        match after_prefix(&av, "--strip-prefix=") {
            Some(v) => {
                proof { reveal_strlit("--strip-prefix="); }
                let ghost s0 = strip_prefixes@;
                strip_prefixes.push(v);
                assert(views(strip_prefixes@) =~= views(s0).push(v@));
                i += 1;
                continue;
            },
            None => {},
        }
        match after_prefix(&av, "--build-flags-file=") {
            Some(v) => {
                proof { reveal_strlit("--build-flags-file="); }
                let ghost b0 = build_flags_files@;
                build_flags_files.push(v);
                assert(views(build_flags_files@) =~= views(b0).push(v@));
                i += 1;
                continue;
            },
            None => {},
        }
        proof {
            reveal_strlit("--output=");
            reveal_strlit("--crate-root-placeholder=");
            reveal_strlit("--strip-prefix=");
            reveal_strlit("--build-flags-file=");
            let w = wargs.take(i as int);
            assert(w.drop_last() =~= wargs.take(i - 1));
            assert(w.last() == av@);
            assert(writer_scan(w) == Err::<WriterSettings, Seq<char>>(av@));
            lemma_writer_scan_err(wargs, i as int);
        }
        let e = WriterArgsError::UnknownArgument(raw[i].clone());
        return Err(e);
    }
    assert(wargs.take(split - 1) =~= wargs);
    let output = match output {
        Some(o) => o,
        None => return Err(WriterArgsError::MissingOutput),
    };
    let placeholder = match placeholder {
        Some(p) => p,
        None => return Err(WriterArgsError::MissingPlaceholder),
    };
    let mut action_argv: Vec<String> = Vec::new();
    let mut k: usize = split + 1;
    assert(rv.subrange(split + 1, split + 1) =~= Seq::<Seq<char>>::empty());
    while k < raw.len()
        invariant
            split < k <= raw.len(),
            rv == views(raw@),
            views(action_argv@) == rv.subrange(split + 1, k as int),
        decreases raw.len() - k,
    {
        let ghost a0 = action_argv@;
        action_argv.push(raw[k].clone());
        assert(views(action_argv@) =~= views(a0).push(raw@[k as int]@));
        k += 1;
        assert(views(action_argv@) =~= rv.subrange(split + 1, k as int));
    }
    assert(rv.subrange(split + 1, k as int) =~= rv.skip(split + 1));
    Ok(
        Options {
            output,
            crate_root_placeholder: placeholder,
            strip_prefixes,
            build_flags_files,
            action_argv,
        },
    )
}

/// `s` runs from the longest (in bytes) to the shortest.
pub open spec fn longest_first(s: Seq<Seq<char>>) -> bool {
    forall|i: int, j: int| 0 <= i < j < s.len() ==> utf8_len(#[trigger] s[i]) >= utf8_len(#[trigger] s[j])
}

proof fn lemma_insert_pos(sorted: Seq<Seq<char>>, x: Seq<char>)
    ensures
        insert_pos(sorted, x) <= sorted.len(),
        forall|i: int| 0 <= i < insert_pos(sorted, x) ==> utf8_len(#[trigger] sorted[i]) >= utf8_len(x),
        insert_pos(sorted, x) < sorted.len() ==> utf8_len(sorted[insert_pos(sorted, x) as int]) < utf8_len(x),
    decreases sorted.len(),
{
    if sorted.len() > 0 && utf8_len(sorted[0]) >= utf8_len(x) {
        let t = sorted.drop_first();
        lemma_insert_pos(t, x);
        assert forall|i: int| 0 <= i < insert_pos(sorted, x) implies utf8_len(#[trigger] sorted[i]) >= utf8_len(x) by {
            if i > 0 {
                assert(sorted[i] == t[i - 1]);
            }
        }
    }
}

proof fn lemma_sort_longest_first(s: Seq<Seq<char>>)
    ensures
        longest_first(sort_longest_first(s)),
        sort_longest_first(s).to_multiset() == s.to_multiset(),
    decreases s.len(),
{
    broadcast use vstd::seq_lib::group_to_multiset_ensures;
    if s.len() > 0 {
        let q = s.drop_last();
        lemma_sort_longest_first(q);
        let sorted = sort_longest_first(q);
        let x = s.last();
        let p = insert_pos(sorted, x) as int;
        lemma_insert_pos(sorted, x);
        let r = sorted.insert(p, x);
        sorted.insert_ensures(p, x);
        assert forall|i: int, j: int| 0 <= i < j < r.len() implies utf8_len(#[trigger] r[i]) >= utf8_len(#[trigger] r[j]) by {
            if j < p {
                assert(r[i] == sorted[i] && r[j] == sorted[j]);
            } else if j == p {
                assert(r[i] == sorted[i]);
            } else if i < p {
                assert(r[i] == sorted[i] && r[j] == sorted[j - 1]);
            } else if i == p {
                assert(r[j] == sorted[j - 1]);
                assert(utf8_len(sorted[p]) >= utf8_len(sorted[j - 1]));
            } else {
                assert(r[i] == sorted[i - 1] && r[j] == sorted[j - 1]);
            }
        }
        assert(q.push(x) =~= s);
        vstd::seq_lib::to_multiset_insert(sorted, p, x);
    }
}

proof fn lemma_dedup_keeps(s: Seq<Seq<char>>)
    ensures
        forall|x: Seq<char>| #[trigger] s.contains(x) ==> dedup(s).contains(x),
    decreases s.len(),
{
    if s.len() > 0 {
        let q = s.drop_last();
        lemma_dedup_keeps(q);
        let d = dedup(q);
        let e = dedup(s);
        assert forall|x: Seq<char>| #[trigger] s.contains(x) implies e.contains(x) by {
            let w = choose|k: int| 0 <= k < s.len() && s[k] == x;
            if w < q.len() {
                assert(q[w] == x);
                assert(q.contains(x));
                let v = choose|k: int| 0 <= k < d.len() && d[k] == x;
                if e != d {
                    assert(e[v] == d[v]);
                }
            } else if d.len() > 0 && d.last() == s.last() {
                assert(d[d.len() - 1] == x);
            } else {
                assert(e[e.len() - 1] == x);
            }
        }
    }
}

proof fn lemma_dedup(s: Seq<Seq<char>>)
    ensures
        forall|i: int| 0 <= i < dedup(s).len() ==> s.contains(#[trigger] dedup(s)[i]),
        forall|i: int| 0 <= i < dedup(s).len() - 1 ==> #[trigger] dedup(s)[i] != dedup(s)[i + 1],
        longest_first(s) ==> longest_first(dedup(s)),
    decreases s.len(),
{
    if s.len() > 0 {
        let q = s.drop_last();
        lemma_dedup(q);
        let d = dedup(q);
        let e = dedup(s);
        assert forall|i: int| 0 <= i < e.len() implies s.contains(#[trigger] e[i]) by {
            if i < d.len() {
                assert(e[i] == d[i]);
                let w = choose|k: int| 0 <= k < q.len() && q[k] == d[i];
                assert(s[w] == q[w]);
            } else {
                assert(e[i] == s[s.len() - 1]);
            }
        }
        assert forall|i: int| 0 <= i < e.len() - 1 implies #[trigger] e[i] != e[i + 1] by {
            if i + 1 < d.len() {
                assert(e[i] == d[i] && e[i + 1] == d[i + 1]);
            } else {
                assert(e[i] == d[i]);
            }
        }
        if longest_first(s) {
            assert(longest_first(q)) by {
                assert forall|i: int, j: int| 0 <= i < j < q.len() implies utf8_len(#[trigger] q[i]) >= utf8_len(#[trigger] q[j]) by {
                    assert(q[i] == s[i] && q[j] == s[j]);
                }
            }
            assert forall|i: int, j: int| 0 <= i < j < e.len() implies utf8_len(#[trigger] e[i]) >= utf8_len(#[trigger] e[j]) by {
                if j < d.len() {
                    assert(e[i] == d[i] && e[j] == d[j]);
                } else {
                    assert(e[i] == d[i]);
                    assert(e[j] == s.last());
                    let w = choose|k: int| 0 <= k < q.len() && q[k] == d[i];
                    assert(s[w] == q[w]);
                    assert(utf8_len(s[w]) >= utf8_len(s[s.len() - 1]));
                }
            }
        }
    }
}

proof fn lemma_trim_end_slashes_shape(t: Seq<char>)
    ensures
        trim_end_slashes(t).len() == 0 || trim_end_slashes(t).last() != '/',
    decreases t.len(),
{
    if t.len() > 0 && t.last() == '/' {
        lemma_trim_end_slashes_shape(t.drop_last());
    }
}

proof fn lemma_cleaned_shape(ps: Seq<Seq<char>>)
    ensures
        forall|i: int| 0 <= i < cleaned_prefixes(ps).len() ==> {
            let c = #[trigger] cleaned_prefixes(ps)[i];
            c.len() == 0 || c.last() != '/'
        },
    decreases ps.len(),
{
    if ps.len() > 0 {
        lemma_cleaned_shape(ps.drop_last());
        lemma_trim_end_slashes_shape(trim(ps.last()));
        let rest = cleaned_prefixes(ps.drop_last());
        let c = cleaned_prefixes(ps);
        assert forall|i: int| 0 <= i < c.len() implies {
            let e = #[trigger] c[i];
            e.len() == 0 || e.last() != '/'
        } by {
            if i < rest.len() {
                assert(c[i] == rest[i]);
            }
        }
    }
}

/// The normalized prefixes run from the longest (in bytes) to the shortest,
/// with no two equal ones next to each other; they are exactly the given
/// prefixes that are not blank, trimmed and without trailing slashes (each
/// one kept, none added).
pub proof fn law_normalized_prefixes(ps: Seq<Seq<char>>)
    ensures
        longest_first(normalized_prefixes(ps)),
        forall|i: int|
            0 <= i < normalized_prefixes(ps).len() - 1 ==> #[trigger] normalized_prefixes(ps)[i]
                != normalized_prefixes(ps)[i + 1],
        forall|i: int|
            0 <= i < normalized_prefixes(ps).len() ==> cleaned_prefixes(ps).contains(
                #[trigger] normalized_prefixes(ps)[i],
            ),
        forall|x: Seq<char>|
            #[trigger] cleaned_prefixes(ps).contains(x) ==> normalized_prefixes(ps).contains(x),
        forall|i: int|
            0 <= i < normalized_prefixes(ps).len() ==> {
                let c = #[trigger] normalized_prefixes(ps)[i];
                c.len() == 0 || c.last() != '/'
            },
{
    broadcast use vstd::seq_lib::group_to_multiset_ensures;
    let c = cleaned_prefixes(ps);
    let so = sort_longest_first(c);
    lemma_sort_longest_first(c);
    lemma_dedup(so);
    lemma_cleaned_shape(ps);
    let r = normalized_prefixes(ps);
    lemma_dedup_keeps(so);
    assert forall|x: Seq<char>| #[trigger] c.contains(x) implies r.contains(x) by {
        assert(c.to_multiset().count(x) > 0);
        assert(so.to_multiset().count(x) > 0);
        assert(so.contains(x));
    }
    assert forall|i: int| 0 <= i < r.len() implies c.contains(#[trigger] r[i]) by {
        assert(so.contains(r[i]));
        assert(so.to_multiset().count(r[i]) > 0);
        assert(c.to_multiset().count(r[i]) > 0);
    }
    assert forall|i: int| 0 <= i < r.len() implies {
        let e = #[trigger] r[i];
        e.len() == 0 || e.last() != '/'
    } by {
        assert(c.contains(r[i]));
        let w = choose|k: int| 0 <= k < c.len() && c[k] == r[i];
    }
}

/// Every replayed parameter is either the crate-root placeholder or a
/// non-empty argument that is not an output-shaping flag, and the placeholder
/// is among them whenever the scan found the crate root.
pub proof fn law_runtime_params_shape(
    args: Seq<Seq<char>>,
    prefixes: Seq<Seq<char>>,
    placeholder: Seq<char>,
)
    ensures
        forall|i: int|
            0 <= i < runtime_scan(args, prefixes, placeholder).0.len() ==> {
                let p = #[trigger] runtime_scan(args, prefixes, placeholder).0[i];
                p == placeholder || (p.len() > 0 && !is_output_flag(p))
            },
        runtime_scan(args, prefixes, placeholder).1 ==> runtime_scan(
            args,
            prefixes,
            placeholder,
        ).0.contains(placeholder),
    decreases args.len(),
{
    if args.len() > 0 {
        law_runtime_params_shape(args.drop_last(), prefixes, placeholder);
        let (acc, replaced) = runtime_scan(args.drop_last(), prefixes, placeholder);
        let (out, rep2) = runtime_scan(args, prefixes, placeholder);
        assert forall|i: int| 0 <= i < out.len() implies {
            let p = #[trigger] out[i];
            p == placeholder || (p.len() > 0 && !is_output_flag(p))
        } by {
            if i < acc.len() {
                assert(out[i] == acc[i]);
            }
        }
        if rep2 {
            if replaced {
                let w = choose|k: int| 0 <= k < acc.len() && acc[k] == placeholder;
                assert(out[w] == acc[w]);
            } else {
                assert(out[acc.len() as int] == placeholder);
            }
        }
    }
}


proof fn lemma_utf8_len_concat(a: Seq<char>, b: Seq<char>)
    ensures
        utf8_len(a + b) == utf8_len(a) + utf8_len(b),
    decreases b.len(),
{
    if b.len() == 0 {
        assert(a + b =~= a);
    } else {
        assert((a + b).drop_last() =~= a + b.drop_last());
        lemma_utf8_len_concat(a, b.drop_last());
    }
}

proof fn lemma_strip_without_slash(s: Seq<char>, pat: Seq<char>)
    requires
        forall|j: int| 0 <= j < s.len() ==> s[j] != '/',
        pat.len() > 0,
        pat.last() == '/',
    ensures
        replace_all(s, pat, Seq::empty()) == s,
{
    assert(!crate::config::occurs(s, pat)) by {
        if crate::config::occurs(s, pat) {
            let i = choose|i: int|
                0 <= i <= s.len() - pat.len() && #[trigger] s.subrange(i, i + pat.len()) == pat;
            assert(s.subrange(i, i + pat.len())[pat.len() - 1] == s[i + pat.len() - 1]);
        }
    }
    crate::config::lemma_replace_absent(s, pat, Seq::empty());
}

/// Nested execroot prefixes are stripped whole, whatever order they are given
/// in: with the prefixes `p` and `p + q` (both already clean: not blank,
/// trimmed, no trailing `/`), an action whose arguments are a crate root and
/// `p + q + "/" + r` (neither holding any further `/`) gives the placeholder
/// and `r`: the longer prefix is stripped first, so nothing of it is left.
pub proof fn law_nested_prefixes_strip_whole(
    options: Options,
    p: Seq<char>,
    q: Seq<char>,
    root: Seq<char>,
    r: Seq<char>,
)
    requires
        p.len() > 0,
        q.len() > 0,
        trim(p) == p,
        trim(p + q) == p + q,
        p.last() != '/',
        q.last() != '/',
        views(options.strip_prefixes@) == seq![p, p + q] || views(options.strip_prefixes@) == seq![
            p + q,
            p,
        ],
        views(options.action_argv@) == seq![root, p + q + seq!['/'] + r],
        root.len() > 0,
        root[0] != '-',
        forall|j: int| 0 <= j < root.len() ==> root[j] != '/',
        r.len() > 0,
        forall|j: int| 0 <= j < r.len() ==> r[j] != '/',
        !is_output_flag(r),
    ensures
        runtime_params(options, seq![None, None], Seq::empty()) == Ok::<
            Seq<Seq<char>>,
            Seq<char>,
        >(seq![options.crate_root_placeholder@, r]),
{
    let pq = p + q;
    let ps = views(options.strip_prefixes@);
    // The normalized prefixes are the longer one, then the shorter one.
    assert((p + q).last() == q.last());
    assert(trim_end_slashes(p) == p);
    assert(trim_end_slashes(pq) == pq);
    lemma_utf8_len_concat(p, q);
    assert(utf8_len(q) >= utf8_len(q.drop_last()) + 1);
    assert(pq.len() == p.len() + q.len());
    assert(pq != p);
    assert(ps.drop_last().drop_last() =~= Seq::<Seq<char>>::empty());
    assert(cleaned_prefixes(ps.drop_last().drop_last()) =~= Seq::<Seq<char>>::empty());
    assert(ps.len() == 2);
    assert(trim(ps[0]) == ps[0] && trim_end_slashes(ps[0]) == ps[0] && ps[0].len() > 0);
    assert(trim(ps[1]) == ps[1] && trim_end_slashes(ps[1]) == ps[1] && ps[1].len() > 0);
    let d1 = ps.drop_last();
    assert(d1.drop_last() =~= Seq::<Seq<char>>::empty());
    assert(d1.last() == ps[0]);
    assert(cleaned_prefixes(d1) =~= seq![ps[0]]);
    assert(ps.last() == ps[1]);
    let c = cleaned_prefixes(ps);
    assert(c =~= ps);
    let sorted = sort_longest_first(c);
    assert(c.drop_last().drop_last() =~= Seq::<Seq<char>>::empty());
    assert(sort_longest_first(c.drop_last()) =~= seq![c[0]]) by {
        let e = c.drop_last();
        assert(e.drop_last() =~= Seq::<Seq<char>>::empty());
        assert(e.last() == c[0]);
        assert(sort_longest_first(e.drop_last()) =~= Seq::<Seq<char>>::empty());
        assert(insert_pos(Seq::<Seq<char>>::empty(), c[0]) == 0);
        assert(Seq::<Seq<char>>::empty().insert(0, c[0]) =~= seq![c[0]]);
    }
    let one = seq![c[0]];
    assert(one.drop_first() =~= Seq::<Seq<char>>::empty());
    if c[0] == p {
        assert(insert_pos(one, pq) == 0);
        assert(sorted =~= one.insert(0, pq));
    } else {
        assert(insert_pos(Seq::<Seq<char>>::empty(), p) == 0);
        assert(insert_pos(one, p) == 1);
        assert(sorted =~= one.insert(1, p));
    }
    assert(sorted =~= seq![pq, p]);
    let norm = normalized_prefixes(ps);
    assert(sorted.drop_last() =~= seq![pq]);
    assert(seq![pq].drop_last() =~= Seq::<Seq<char>>::empty());
    assert(dedup(Seq::<Seq<char>>::empty()) =~= Seq::<Seq<char>>::empty());
    assert(seq![pq].last() == pq);
    assert(dedup(seq![pq]) =~= seq![pq]);
    assert(sorted.last() == p);
    assert(norm =~= seq![pq, p]);
    // The arguments are the action's own.
    let argv = views(options.action_argv@);
    let files = seq![None::<Seq<char>>, None];
    assert(argv.drop_last().drop_last() =~= Seq::<Seq<char>>::empty());
    assert(files.drop_last().drop_last() =~= Seq::<Option<Seq<char>>>::empty());
    assert(expand_all(argv.drop_last().drop_last(), files.drop_last().drop_last()) =~= Seq::<Seq<char>>::empty());
    assert(expansion(argv[0], None) =~= seq![argv[0]]);
    assert(expansion(argv[1], None) =~= seq![argv[1]]);
    assert(argv.drop_last().last() == argv[0]);
    assert(files.drop_last().last() == None::<Seq<char>>);
    assert(expand_all(argv.drop_last(), files.drop_last()) =~= seq![argv[0]]);
    assert(expand_all(argv, files) =~= argv);
    assert(all_flag_lines(Seq::empty()) =~= Seq::<Seq<char>>::empty());
    assert(argv + Seq::<Seq<char>>::empty() =~= argv);
    // The crate root is untouched and becomes the placeholder.
    assert(norm.drop_last().drop_last() =~= Seq::<Seq<char>>::empty());
    assert(norm.drop_last() =~= seq![pq]);
    lemma_strip_without_slash(root, pq.push('/'));
    lemma_strip_without_slash(root, p.push('/'));
    assert(norm.drop_last().drop_last() =~= Seq::<Seq<char>>::empty());
    assert(strip_all(root, norm.drop_last().drop_last()) == root);
    assert(norm.drop_last().last() == pq);
    assert(strip_all(root, norm.drop_last()) == root);
    assert(norm.last() == p);
    assert(strip_all(root, norm) == root);
    assert(starts_with(root, "-"@) == false) by {
        reveal_strlit("-");
        if starts_with(root, "-"@) {
            assert(root.take(1)[0] == root[0]);
        }
    }
    // The other argument loses the whole longer prefix.
    let arg = pq + seq!['/'] + r;
    let pat = pq.push('/');
    assert(arg.take(pat.len() as int) =~= pat);
    assert(arg.skip(pat.len() as int) =~= r);
    lemma_strip_without_slash(r, pat);
    assert(replace_all(arg, pat, Seq::empty()) =~= r);
    lemma_strip_without_slash(r, p.push('/'));
    assert(strip_all(arg, norm.drop_last().drop_last()) == arg);
    assert(strip_all(arg, norm.drop_last()) == r);
    assert(strip_all(arg, norm) == r);
    assert(argv.drop_last() =~= seq![root]);
    assert(seq![root].drop_last() =~= Seq::<Seq<char>>::empty());
    let ph = options.crate_root_placeholder@;
    let args = expand_all(argv, files) + all_flag_lines(Seq::<Seq<char>>::empty());
    assert(args =~= argv);
    assert(args.drop_last() =~= seq![root]);
    assert(args.drop_last().drop_last() =~= Seq::<Seq<char>>::empty());
    assert(runtime_scan(args.drop_last().drop_last(), norm, ph) == (Seq::<Seq<char>>::empty(), false));
    assert(args.drop_last().last() == root);
    assert(Seq::<Seq<char>>::empty().push(ph) =~= seq![ph]);
    assert(runtime_scan(args.drop_last(), norm, ph) == (seq![ph], true));
    assert(args.last() == arg);
    assert(seq![ph].push(r) =~= seq![ph, r]);
    assert(runtime_scan(args, norm, ph) == (seq![ph, r], true));
}

} // verus!
