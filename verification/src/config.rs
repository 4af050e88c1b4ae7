//! The runner's inputs: source and input path lists, the rustc environment and
//! parameter files, and the parameters rendered for one mutant.
use vstd::prelude::*;
use crate::args::Args;
use crate::paths::{
    contains_path, has_path, join_path, joined, parent_of, parent_path, paths_equal, same_path,
};
use crate::text::{
    chars_eq, chars_of, decimal, decimal_chars, lines, lines_chars, nonempty_trimmed,
    nonempty_trimmed_lines, push_all, push_str, replace_all, replace_chars, slice_chars,
    string_of, trim, trim_chars, views,
};

verus! {

/// The parameter that stands for the crate root of the mutated copy.
pub const CRATE_ROOT_PLACEHOLDER: &'static str = "__MUTATION_CRATE_ROOT__";

/// `paths` with each path kept only where it (or one that names the same
/// path) first occurs.
pub open spec fn dedupe_first(paths: Seq<Seq<char>>) -> Seq<Seq<char>>
    decreases paths.len(),
{
    if paths.len() == 0 {
        Seq::empty()
    } else {
        let d = dedupe_first(paths.drop_last());
        if has_path(d, paths.last()) {
            d
        } else {
            d.push(paths.last())
        }
    }
}

/// `value` with each `${pwd}` replaced by the working directory `cwd`.
pub open spec fn expand_pwd(value: Seq<char>, cwd: Seq<char>) -> Seq<char> {
    replace_all(value, "${pwd}"@, cwd)
}

/// The paths named by a path-list file: its non-blank lines, trimmed.
pub open spec fn path_list(content: Seq<char>) -> Seq<Seq<char>> {
    nonempty_trimmed(lines(content))
}

/// The paths given directly followed by those of the list file, if any.
pub open spec fn given_paths(direct: Seq<Seq<char>>, listed: Option<Seq<char>>) -> Seq<Seq<char>> {
    match listed {
        Some(content) => direct + path_list(content),
        None => direct,
    }
}

/// The view of an optional string slice.
pub open spec fn opt_str_view(o: Option<&str>) -> Option<Seq<char>> {
    match o {
        Some(s) => Some(s@),
        None => None,
    }
}

/// Position of the first `=` in `s`.
pub open spec fn first_eq(s: Seq<char>) -> Option<nat>
    decreases s.len(),
{
    if s.len() == 0 {
        None
    } else if s[0] == '=' {
        Some(0)
    } else {
        match first_eq(s.drop_first()) {
            Some(k) => Some(k + 1),
            None => None,
        }
    }
}

/// The location that an env-file error names: `<source>:<line>`.
pub open spec fn env_location(source: Seq<char>, line_num: nat) -> Seq<char> {
    "Invalid rustc env entry in "@ + source + ":"@ + decimal(line_num)
}

/// The entry that a line of a rustc env file holds: nothing for a blank
/// line, else `KEY=VALUE` (split at the first `=`, the key non-empty, `${pwd}`
/// in the value expanded), else an error naming the file and line.
pub open spec fn env_entry(line: Seq<char>, source: Seq<char>, line_num: nat, cwd: Seq<char>) -> Result<
    Option<(Seq<char>, Seq<char>)>,
    Seq<char>,
> {
    let t = trim(line);
    if t.len() == 0 {
        Ok(None)
    } else {
        match first_eq(t) {
            None => Err(env_location(source, line_num) + ": expected KEY=VALUE"@),
            Some(k) => if k == 0 {
                Err(env_location(source, line_num) + ": empty key"@)
            } else {
                Ok(Some((t.take(k as int), expand_pwd(t.skip(k + 1int), cwd))))
            },
        }
    }
}

/// Position of `key` in the environment `m`.
pub open spec fn key_pos(m: Seq<(Seq<char>, Seq<char>)>, key: Seq<char>) -> Option<nat>
    decreases m.len(),
{
    if m.len() == 0 {
        None
    } else if m[0].0 == key {
        Some(0)
    } else {
        match key_pos(m.drop_first(), key) {
            Some(k) => Some(k + 1),
            None => None,
        }
    }
}

/// The environment `m` with `key` set to `value`: an existing setting is
/// replaced in place, a new one added at the end.
pub open spec fn env_set(m: Seq<(Seq<char>, Seq<char>)>, key: Seq<char>, value: Seq<char>) -> Seq<
    (Seq<char>, Seq<char>),
> {
    match key_pos(m, key) {
        Some(k) => m.update(k as int, (key, value)),
        None => m.push((key, value)),
    }
}

/// The environment `m` after the lines `ls` of the file `source` (numbered
/// from 1), or the error of the first bad line.
pub open spec fn env_after_lines(
    m: Seq<(Seq<char>, Seq<char>)>,
    ls: Seq<Seq<char>>,
    source: Seq<char>,
    cwd: Seq<char>,
) -> Result<Seq<(Seq<char>, Seq<char>)>, Seq<char>>
    decreases ls.len(),
{
    if ls.len() == 0 {
        Ok(m)
    } else {
        match env_after_lines(m, ls.drop_last(), source, cwd) {
            Err(e) => Err(e),
            Ok(m1) => match env_entry(ls.last(), source, ls.len(), cwd) {
                Err(e) => Err(e),
                Ok(None) => Ok(m1),
                Ok(Some((k, v))) => Ok(env_set(m1, k, v)),
            },
        }
    }
}

/// The environment made by the env files `files` (path, content), in order,
/// or the error of the first bad line.
pub open spec fn env_after_files(files: Seq<(Seq<char>, Seq<char>)>, cwd: Seq<char>) -> Result<
    Seq<(Seq<char>, Seq<char>)>,
    Seq<char>,
>
    decreases files.len(),
{
    if files.len() == 0 {
        Ok(Seq::empty())
    } else {
        match env_after_files(files.drop_last(), cwd) {
            Err(e) => Err(e),
            Ok(m) => env_after_lines(m, lines(files.last().1), files.last().0, cwd),
        }
    }
}

/// The view of a list of string pairs.
pub open spec fn pair_views(v: Seq<(String, String)>) -> Seq<(Seq<char>, Seq<char>)> {
    v.map_values(|p: (String, String)| (p.0@, p.1@))
}

/// The parameters for one mutant: the placeholder replaced by `root`.
pub open spec fn rendered(params: Seq<Seq<char>>, root: Seq<char>) -> Seq<Seq<char>> {
    params.map_values(
        |p: Seq<char>|
            if p == CRATE_ROOT_PLACEHOLDER@ {
                root
            } else {
                p
            },
    )
}

/// `value` with each `${pwd}` replaced by the working directory `cwd`.
pub fn expand_pwd_placeholders(value: &str, cwd: &str) -> (r: String)
    ensures
        r@ == expand_pwd(value@, cwd@),
{
    let v = chars_of(value);
    let pat = chars_of("${pwd}");
    let c = chars_of(cwd);
    proof {
        reveal_strlit("${pwd}");
    }
    let out = replace_chars(&v, &pat, &c);
    string_of(&out)
}

/// `paths` with each path kept only at its first occurrence, in order.
pub fn dedupe_paths(paths: Vec<String>) -> (r: Vec<String>)
    ensures
        views(r@) == dedupe_first(views(paths@)),
{
    let ghost pv = views(paths@);
    let mut r: Vec<String> = Vec::new();
    let mut i: usize = 0;
    while i < paths.len()
        invariant
            i <= paths.len(),
            pv == views(paths@),
            views(r@) == dedupe_first(pv.take(i as int)),
        decreases paths.len() - i,
    {
        proof {
            assert(pv.take(i + 1).drop_last() =~= pv.take(i as int));
            assert(pv.take(i + 1).last() == paths@[i as int]@);
        }
        let mut seen = false;
        let mut k: usize = 0;
        while k < r.len()
            invariant
                i < paths.len(),
                k <= r.len(),
                seen == has_path(views(r@).take(k as int), paths@[i as int]@),
            decreases r.len() - k,
        {
            let same = paths_equal(r[k].as_str(), paths[i].as_str());
            proof {
                let t = views(r@).take(k + 1);
                let q = views(r@).take(k as int);
                assert(t[k as int] == r@[k as int]@);
                if has_path(q, paths@[i as int]@) {
                    let w = choose|j: int| 0 <= j < q.len() && same_path(#[trigger] q[j], paths@[i as int]@);
                    assert(t[w] == q[w]);
                }
                if has_path(t, paths@[i as int]@) && !same {
                    let w = choose|j: int| 0 <= j < t.len() && same_path(#[trigger] t[j], paths@[i as int]@);
                    assert(q[w] == t[w]);
                }
            }
            if same {
                seen = true;
            }
            k += 1;
        }
        assert(views(r@).take(k as int) =~= views(r@));
        if !seen {
            let ghost r0 = views(r@);
            r.push(paths[i].clone());
            assert(views(r@) =~= r0.push(paths@[i as int]@));
        }
        i += 1;
    }
    assert(pv.take(i as int) =~= pv);
    r
}

/// The paths that a path-list file names: its non-blank lines, trimmed.
pub fn parse_path_list(content: &str) -> (r: Vec<String>)
    ensures
        views(r@) == path_list(content@),
{
    nonempty_trimmed_lines(content)
}

/// `direct` followed by the paths listed in `listed`, if any.
fn gather_paths(direct: &Vec<String>, listed: Option<&str>) -> (r: Vec<String>)
    ensures
        views(r@) == given_paths(views(direct@), opt_str_view(listed)),
{
    let mut r: Vec<String> = Vec::new();
    let mut i: usize = 0;
    while i < direct.len()
        invariant
            i <= direct.len(),
            views(r@) == views(direct@).take(i as int),
        decreases direct.len() - i,
    {
        let ghost r0 = views(r@);
        r.push(direct[i].clone());
        assert(views(r@) =~= r0.push(direct@[i as int]@));
        i += 1;
        assert(views(r@) =~= views(direct@).take(i as int));
    }
    assert(views(direct@).take(i as int) =~= views(direct@));
    match listed {
        Some(content) => {
            let more = parse_path_list(content);
            let ghost before = views(r@);
            let mut k: usize = 0;
            while k < more.len()
                invariant
                    k <= more.len(),
                    views(r@) == before + views(more@).take(k as int),
                decreases more.len() - k,
            {
                let ghost r0 = views(r@);
                r.push(more[k].clone());
                assert(views(r@) =~= r0.push(more@[k as int]@));
                k += 1;
                assert(views(r@) =~= before + views(more@).take(k as int));
            }
            assert(views(more@).take(k as int) =~= views(more@));
        },
        None => {},
    }
    r
}

/// The source files to mutate: the `--source` paths followed by those listed
/// in the `--sources-file` (whose content is `sources_file_content`), without
/// repeats; an error when there are none.
pub fn read_source_paths(args: &Args, sources_file_content: Option<&str>) -> (r: Result<
    Vec<String>,
    String,
>)
    ensures
        r is Err <==> given_paths(views(args.sources@), opt_str_view(sources_file_content)).len()
            == 0,
        r matches Ok(v) ==> views(v@) == dedupe_first(
            given_paths(views(args.sources@), opt_str_view(sources_file_content)),
        ),
        r matches Err(e) ==> e@ == "No sources provided; pass --source or --sources-file"@,
{
    let paths = gather_paths(&args.sources, sources_file_content);
    if paths.len() == 0 {
        let msg = chars_of("No sources provided; pass --source or --sources-file");
        return Err(string_of(&msg));
    }
    Ok(dedupe_paths(paths))
}

/// The files that the build reads: the `--input` paths followed by those
/// listed in the `--inputs-file` (whose content is `inputs_file_content`), or
/// the source files when there are none, without repeats.
pub fn read_input_paths(
    args: &Args,
    inputs_file_content: Option<&str>,
    source_paths: &Vec<String>,
) -> (r: Vec<String>)
    ensures
        views(r@) == dedupe_first(
            if given_paths(views(args.inputs@), opt_str_view(inputs_file_content)).len() == 0 {
                views(source_paths@)
            } else {
                given_paths(views(args.inputs@), opt_str_view(inputs_file_content))
            },
        ),
{
    let paths = gather_paths(&args.inputs, inputs_file_content);
    if paths.len() == 0 {
        let copy = gather_paths(source_paths, None);
        dedupe_paths(copy)
    } else {
        dedupe_paths(paths)
    }
}

/// The env files to read, in order: the `--rustc-env-file`, then those
/// listed in the `--rustc-env-files-list` (whose content is `list_content`).
pub fn rustc_env_file_paths(args: &Args, list_content: Option<&str>) -> (r: Vec<String>)
    ensures
        views(r@) == given_paths(
            match args.rustc_env_file {
                Some(f) => seq![f@],
                None => Seq::empty(),
            },
            opt_str_view(list_content),
        ),
{
    let mut direct: Vec<String> = Vec::new();
    match &args.rustc_env_file {
        Some(f) => {
            direct.push(f.clone());
            assert(views(direct@) =~= seq![f@]);
        },
        None => {
            assert(views(direct@) =~= Seq::<Seq<char>>::empty());
        },
    }
    gather_paths(&direct, list_content)
}

fn first_eq_pos(s: &Vec<char>) -> (r: Option<usize>)
    ensures
        r matches Some(k) ==> first_eq(s@) == Some(k as nat) && k < s@.len(),
        r is None ==> first_eq(s@) is None,
{
    let mut i: usize = 0;
    while i < s.len()
        invariant
            i <= s.len(),
            forall|j: int| 0 <= j < i ==> s@[j] != '=',
        decreases s.len() - i,
    {
        if s[i] == '=' {
            proof {
                lemma_first_eq(s@, i as int);
            }
            return Some(i);
        }
        i += 1;
    }
    proof {
        lemma_first_eq(s@, i as int);
    }
    None
}

proof fn lemma_first_eq(s: Seq<char>, i: int)
    requires
        0 <= i <= s.len(),
        forall|j: int| 0 <= j < i ==> s[j] != '=',
        i == s.len() || s[i] == '=',
    ensures
        first_eq(s) == (if i == s.len() {
            None
        } else {
            Some(i as nat)
        }),
    decreases i,
{
    if i > 0 {
        assert forall|j: int| 0 <= j < i - 1 implies s.drop_first()[j] != '=' by {
            assert(s.drop_first()[j] == s[j + 1]);
        }
        lemma_first_eq(s.drop_first(), i - 1);
    }
}

fn env_location_chars(source: &str, line_num: usize) -> (r: Vec<char>)
    ensures
        r@ == env_location(source@, line_num as nat),
{
    let mut v = chars_of("Invalid rustc env entry in ");
    push_str(&mut v, source);
    push_str(&mut v, ":");
    let d = decimal_chars(line_num);
    push_all(&mut v, &d);
    v
}

fn env_entry_chars(line: &Vec<char>, source: &str, line_num: usize, cwd: &str) -> (r: Result<
    Option<(String, String)>,
    String,
>)
    ensures
        env_result_view(r) == env_entry(line@, source@, line_num as nat, cwd@),
{
    let t = trim_chars(line);
    if t.len() == 0 {
        return Ok(None);
    }
    match first_eq_pos(&t) {
        None => {
            let mut v = env_location_chars(source, line_num);
            push_str(&mut v, ": expected KEY=VALUE");
            Err(string_of(&v))
        },
        Some(k) => {
            if k == 0 {
                let mut v = env_location_chars(source, line_num);
                push_str(&mut v, ": empty key");
                Err(string_of(&v))
            } else {
                let key = slice_chars(&t, 0, k);
                let value = slice_chars(&t, k + 1, t.len());
                let pat = chars_of("${pwd}");
                let c = chars_of(cwd);
                proof {
                    reveal_strlit("${pwd}");
                }
                let expanded = replace_chars(&value, &pat, &c);
                Ok(Some((string_of(&key), string_of(&expanded))))
            }
        },
    }
}

/// The view of the outcome of reading one env-file line.
pub open spec fn env_result_view(r: Result<Option<(String, String)>, String>) -> Result<
    Option<(Seq<char>, Seq<char>)>,
    Seq<char>,
> {
    match r {
        Ok(Some((k, v))) => Ok(Some((k@, v@))),
        Ok(None) => Ok(None),
        Err(e) => Err(e@),
    }
}

/// The entry that a line of a rustc env file holds: `None` for a blank line,
/// else the trimmed line split at its first `=` into a non-empty key and a
/// value with `${pwd}` expanded to `cwd`; an error naming `source` and
/// `line_num` for a line without `=` or with an empty key.
pub fn parse_env_entry(line: &str, source: &str, line_num: usize, cwd: &str) -> (r: Result<
    Option<(String, String)>,
    String,
>)
    ensures
        env_result_view(r) == env_entry(line@, source@, line_num as nat, cwd@),
{
    let lv = chars_of(line);
    env_entry_chars(&lv, source, line_num, cwd)
}

fn env_set_exec(m: &mut Vec<(String, String)>, key: String, value: String)
    ensures
        pair_views(final(m)@) == env_set(pair_views(old(m)@), key@, value@),
{
    let ghost mv = pair_views(m@);
    let mut i: usize = 0;
    assert(mv.skip(0) =~= mv);
    while i < m.len()
        invariant
            i <= m.len(),
            mv == pair_views(m@),
            m@ == old(m)@,
            key_pos(mv, key@) == match key_pos(mv.skip(i as int), key@) {
                Some(k) => Some(k + i as nat),
                None => None,
            },
        decreases m.len() - i,
    {
        proof {
            let t = mv.skip(i as int);
            assert(t[0] == (m@[i as int].0@, m@[i as int].1@));
            assert(t.drop_first() =~= mv.skip(i + 1));
        }
        if m[i].0 == key {
            let ghost old_m = m@;
            m.set(i, (key, value));
            assert(pair_views(m@) =~= mv.update(i as int, (key@, value@)));
            return;
        }
        i += 1;
    }
    assert(mv.skip(i as int) =~= Seq::<(Seq<char>, Seq<char>)>::empty());
    let ghost k0 = key@;
    let ghost v0 = value@;
    m.push((key, value));
    assert(pair_views(m@) =~= mv.push((k0, v0)));
}

/// The rustc environment made by the env files `files` (each a path and its
/// content), read in order, line by line: a later setting of a key replaces
/// an earlier one. An error for the first line that is neither blank nor
/// `KEY=VALUE` with a non-empty key.
pub fn load_rustc_env(files: &Vec<(String, String)>, cwd: &str) -> (r: Result<
    Vec<(String, String)>,
    String,
>)
    ensures
        r matches Ok(m) ==> env_after_files(pair_views(files@), cwd@) == Ok::<
            Seq<(Seq<char>, Seq<char>)>,
            Seq<char>,
        >(pair_views(m@)),
        r matches Err(e) ==> env_after_files(pair_views(files@), cwd@) == Err::<
            Seq<(Seq<char>, Seq<char>)>,
            Seq<char>,
        >(e@),
{
    let ghost fv = pair_views(files@);
    let mut env: Vec<(String, String)> = Vec::new();
    let mut f: usize = 0;
    assert(fv.take(0) =~= Seq::<(Seq<char>, Seq<char>)>::empty());
    assert(pair_views(env@) =~= Seq::<(Seq<char>, Seq<char>)>::empty());
    while f < files.len()
        invariant
            f <= files.len(),
            fv == pair_views(files@),
            env_after_files(fv.take(f as int), cwd@) == Ok::<
                Seq<(Seq<char>, Seq<char>)>,
                Seq<char>,
            >(pair_views(env@)),
        decreases files.len() - f,
    {
        let source = files[f].0.as_str();
        let content = chars_of(files[f].1.as_str());
        let ls = lines_chars(&content);
        proof {
            let p = fv.take(f + 1);
            assert(p.drop_last() =~= fv.take(f as int));
            assert(p.last() == (files@[f as int].0@, files@[f as int].1@));
        }
        let ghost lv = crate::text::vviews(ls@);
        let ghost m0 = pair_views(env@);
        assert(source@ == fv[f as int].0);
        assert(content@ == fv[f as int].1);
        let mut n: usize = 0;
        assert(lv.take(0) =~= Seq::<Seq<char>>::empty());
        while n < ls.len()
            invariant
                f < files.len(),
                fv == pair_views(files@),
                env_after_files(fv.take(f as int), cwd@) == Ok::<
                    Seq<(Seq<char>, Seq<char>)>,
                    Seq<char>,
                >(m0),
                source@ == fv[f as int].0,
                lv == lines(fv[f as int].1),
                n <= ls.len(),
                lv == crate::text::vviews(ls@),
                env_after_lines(m0, lv.take(n as int), source@, cwd@) == Ok::<
                    Seq<(Seq<char>, Seq<char>)>,
                    Seq<char>,
                >(pair_views(env@)),
            decreases ls.len() - n,
        {
            proof {
                let p = lv.take(n + 1);
                assert(p.drop_last() =~= lv.take(n as int));
                assert(p.last() == ls@[n as int]@);
            }
            match env_entry_chars(&ls[n], source, n + 1, cwd) {
                Err(e) => {
                    proof {
                        lemma_env_lines_err(m0, lv, source@, cwd@, n + 1);
                        let p = fv.take(f + 1);
                        assert(p.drop_last() =~= fv.take(f as int));
                        assert(p.last() == fv[f as int]);
                        lemma_env_files_err(fv, cwd@, f + 1);
                    }
                    return Err(e);
                },
                Ok(None) => {},
                Ok(Some((k, v))) => {
                    env_set_exec(&mut env, k, v);
                },
            }
            n += 1;
        }
        assert(lv.take(n as int) =~= lv);
        proof {
            let p = fv.take(f + 1);
            assert(p.drop_last() =~= fv.take(f as int));
            assert(p.last() == fv[f as int]);
        }
        f += 1;
    }
    assert(fv.take(f as int) =~= fv);
    Ok(env)
}

proof fn lemma_env_lines_err(
    m: Seq<(Seq<char>, Seq<char>)>,
    ls: Seq<Seq<char>>,
    source: Seq<char>,
    cwd: Seq<char>,
    n: int,
)
    requires
        0 <= n <= ls.len(),
        env_after_lines(m, ls.take(n), source, cwd) is Err,
    ensures
        env_after_lines(m, ls, source, cwd) == env_after_lines(m, ls.take(n), source, cwd),
    decreases ls.len(),
{
    if n < ls.len() {
        assert(ls.drop_last().take(n) =~= ls.take(n));
        lemma_env_lines_err(m, ls.drop_last(), source, cwd, n);
    } else {
        assert(ls.take(n) =~= ls);
    }
}

proof fn lemma_env_files_err(files: Seq<(Seq<char>, Seq<char>)>, cwd: Seq<char>, n: int)
    requires
        0 <= n <= files.len(),
        env_after_files(files.take(n), cwd) is Err,
    ensures
        env_after_files(files, cwd) == env_after_files(files.take(n), cwd),
    decreases files.len(),
{
    if n < files.len() {
        assert(files.drop_last().take(n) =~= files.take(n));
        lemma_env_files_err(files.drop_last(), cwd, n);
    } else {
        assert(files.take(n) =~= files);
    }
}

/// The rustc parameters that a params file holds: its non-blank lines,
/// trimmed, with `${pwd}` expanded to `cwd`.
pub fn load_rustc_params(content: &str, cwd: &str) -> (r: Vec<String>)
    ensures
        views(r@) == path_list(content@).map_values(|l: Seq<char>| expand_pwd(l, cwd@)),
{
    let ls = nonempty_trimmed_lines(content);
    let mut r: Vec<String> = Vec::new();
    let mut i: usize = 0;
    while i < ls.len()
        invariant
            i <= ls.len(),
            views(ls@) == path_list(content@),
            views(r@) == path_list(content@).take(i as int).map_values(
                |l: Seq<char>| expand_pwd(l, cwd@),
            ),
        decreases ls.len() - i,
    {
        let e = expand_pwd_placeholders(ls[i].as_str(), cwd);
        let ghost r0 = views(r@);
        r.push(e);
        proof {
            assert(views(ls@)[i as int] == ls@[i as int]@);
            assert(views(r@) =~= r0.push(e@));
        }
        i += 1;
        assert(views(r@) =~= path_list(content@).take(i as int).map_values(
            |l: Seq<char>| expand_pwd(l, cwd@),
        ));
    }
    assert(path_list(content@).take(i as int) =~= path_list(content@));
    r
}

/// The parameters for one mutant: each parameter equal to the crate-root
/// placeholder replaced by the mutated crate root `mutated_root`.
pub fn render_compile_params(params: &Vec<String>, mutated_root: &str) -> (r: Vec<String>)
    ensures
        views(r@) == rendered(views(params@), mutated_root@),
{
    let placeholder = chars_of(CRATE_ROOT_PLACEHOLDER);
    let root = chars_of(mutated_root);
    let mut r: Vec<String> = Vec::new();
    let mut i: usize = 0;
    while i < params.len()
        invariant
            i <= params.len(),
            placeholder@ == CRATE_ROOT_PLACEHOLDER@,
            root@ == mutated_root@,
            views(r@) == rendered(views(params@).take(i as int), mutated_root@),
        decreases params.len() - i,
    {
        let pv = chars_of(params[i].as_str());
        let ghost r0 = views(r@);
        if chars_eq(&pv, &placeholder) {
            r.push(string_of(&root));
        } else {
            r.push(params[i].clone());
        }
        proof {
            assert(views(params@).take(i + 1) =~= views(params@).take(i as int).push(pv@));
            assert(views(r@) =~= r0.push(
                if pv@ == CRATE_ROOT_PLACEHOLDER@ {
                    mutated_root@
                } else {
                    pv@
                },
            ));
            assert(views(r@) =~= rendered(views(params@).take(i + 1), mutated_root@));
        }
        i += 1;
    }
    assert(views(params@).take(i as int) =~= views(params@));
    r
}

/// Checks that the mutated source is one of the build's inputs.
pub fn check_mutation_source(input_paths: &Vec<String>, source_path: &str) -> (r: Result<(), String>)
    ensures
        r is Ok <==> has_path(views(input_paths@), source_path@),
        r matches Err(e) ==> e@ == "Mutation source "@ + source_path@ + " was not present in input map"@,
{
    if contains_path(input_paths, source_path) {
        Ok(())
    } else {
        let mut v = chars_of("Mutation source ");
        push_str(&mut v, source_path);
        push_str(&mut v, " was not present in input map");
        Err(string_of(&v))
    }
}

/// The name of the temporary directory tried for a mutant:
/// `rust_mutant_<pid>_<counter>_<attempt>`.
pub open spec fn temp_dir_name_spec(pid: nat, counter: nat, attempt: nat) -> Seq<char> {
    "rust_mutant_"@ + decimal(pid) + "_"@ + decimal(counter) + "_"@ + decimal(attempt)
}

/// The number of names tried before giving up on a temporary directory.
pub const TEMP_DIR_ATTEMPTS: usize = 1000;

/// The name of the temporary directory tried for a mutant.
pub fn temp_dir_name(pid: u32, counter: usize, attempt: usize) -> (r: String)
    ensures
        r@ == temp_dir_name_spec(pid as nat, counter as nat, attempt as nat),
{
    let mut v = chars_of("rust_mutant_");
    push_all(&mut v, &decimal_chars(pid as usize));
    push_str(&mut v, "_");
    push_all(&mut v, &decimal_chars(counter));
    push_str(&mut v, "_");
    push_all(&mut v, &decimal_chars(attempt));
    string_of(&v)
}

/// The error for a temporary directory that could not be created for a
/// reason other than its existing already.
pub fn temp_dir_error(candidate: &str, reason: &str) -> (r: String)
    ensures
        r@ == "Failed to create temp dir "@ + candidate@ + ": "@ + reason@,
{
    let mut v = chars_of("Failed to create temp dir ");
    push_str(&mut v, candidate);
    push_str(&mut v, ": ");
    push_str(&mut v, reason);
    string_of(&v)
}

/// What happened when a temporary directory was created under a candidate
/// name.
#[derive(Debug)]
pub enum TempDirEvent {
    Created,
    AlreadyExists,
    /// Creation failed for another reason, described.
    Failed(String),
}

/// What to do after trying a candidate name for a temporary directory.
#[derive(Debug)]
pub enum TempDirStep {
    /// The directory was made: use it.
    Use,
    /// Try the next name.
    Retry,
    /// Give up, with this error.
    Fail(String),
}

/// Decides on the attempt numbered `attempt` (from zero) to create a
/// temporary directory at `candidate`: a directory that was made is used; a
/// name that exists already is followed by the next one, until
/// `TEMP_DIR_ATTEMPTS` names were tried; any other failure ends the search.
pub fn next_temp_dir_step(attempt: usize, candidate: &str, event: TempDirEvent) -> (r: TempDirStep)
    ensures
        event is Created ==> r is Use,
        event is AlreadyExists && attempt + 1 < TEMP_DIR_ATTEMPTS ==> r is Retry,
        event is AlreadyExists && attempt + 1 >= TEMP_DIR_ATTEMPTS ==> (r matches TempDirStep::Fail(
            m,
        ) && m@ == "Failed to allocate unique temp dir after 1000 attempts"@),
        event matches TempDirEvent::Failed(reason) ==> (r matches TempDirStep::Fail(m) && m@
            == "Failed to create temp dir "@ + candidate@ + ": "@ + reason@),
{
    match event {
        TempDirEvent::Created => TempDirStep::Use,
        TempDirEvent::AlreadyExists => {
            if attempt < TEMP_DIR_ATTEMPTS - 1 {
                TempDirStep::Retry
            } else {
                let m = chars_of("Failed to allocate unique temp dir after 1000 attempts");
                TempDirStep::Fail(string_of(&m))
            }
        },
        TempDirEvent::Failed(reason) => TempDirStep::Fail(temp_dir_error(candidate, reason.as_str())),
    }
}

/// The variables passed on from the runner's environment to the builds it runs.
pub fn passthrough_env_vars() -> (r: Vec<&'static str>)
    ensures
        r@.len() == 14,
        r@[0]@ == "RUNFILES_DIR"@,
        r@[1]@ == "RUNFILES_MANIFEST_FILE"@,
        r@[2]@ == "RUNFILES_MANIFEST_ONLY"@,
        r@[3]@ == "TEST_SRCDIR"@,
        r@[4]@ == "TEST_WORKSPACE"@,
        r@[5]@ == "TEST_TMPDIR"@,
        r@[6]@ == "TZ"@,
        r@[7]@ == "PATH"@,
        r@[8]@ == "PATHEXT"@,
        r@[9]@ == "LD_LIBRARY_PATH"@,
        r@[10]@ == "DYLD_LIBRARY_PATH"@,
        r@[11]@ == "DYLD_FALLBACK_LIBRARY_PATH"@,
        r@[12]@ == "SYSTEMROOT"@,
        r@[13]@ == "SYSTEMDRIVE"@,
{
    let mut r: Vec<&'static str> = Vec::new();
    r.push("RUNFILES_DIR");
    r.push("RUNFILES_MANIFEST_FILE");
    r.push("RUNFILES_MANIFEST_ONLY");
    r.push("TEST_SRCDIR");
    r.push("TEST_WORKSPACE");
    r.push("TEST_TMPDIR");
    r.push("TZ");
    r.push("PATH");
    r.push("PATHEXT");
    r.push("LD_LIBRARY_PATH");
    r.push("DYLD_LIBRARY_PATH");
    r.push("DYLD_FALLBACK_LIBRARY_PATH");
    r.push("SYSTEMROOT");
    r.push("SYSTEMDRIVE");
    r
}

/// The variables that name the directory for temporary build directories, in
/// the order they are consulted: the first one that is set is used, and the
/// system's temporary directory when none is.
pub fn temp_dir_vars() -> (r: Vec<&'static str>)
    ensures
        r@.len() == 4,
        r@[0]@ == "TEST_TMPDIR"@,
        r@[1]@ == "TMPDIR"@,
        r@[2]@ == "TMP"@,
        r@[3]@ == "TEMP"@,
{
    let mut r: Vec<&'static str> = Vec::new();
    r.push("TEST_TMPDIR");
    r.push("TMPDIR");
    r.push("TMP");
    r.push("TEMP");
    r
}

/// The variables that point into the test's temporary directory when it has
/// one: home and temporary directories (and the Windows profile).
pub fn tmpdir_env_keys(windows: bool) -> (r: Vec<&'static str>)
    ensures
        r@.len() == if windows { 5nat } else { 4nat },
        r@[0]@ == "HOME"@,
        r@[1]@ == "TMPDIR"@,
        r@[2]@ == "TMP"@,
        r@[3]@ == "TEMP"@,
        windows ==> r@[4]@ == "USERPROFILE"@,
{
    let mut r: Vec<&'static str> = Vec::new();
    r.push("HOME");
    r.push("TMPDIR");
    r.push("TMP");
    r.push("TEMP");
    if windows {
        r.push("USERPROFILE");
    }
    r
}

/// No two paths of `d` name the same path.
pub open spec fn no_repeated_paths(d: Seq<Seq<char>>) -> bool {
    forall|i: int, j: int| 0 <= i < j < d.len() ==> !same_path(#[trigger] d[i], #[trigger] d[j])
}

proof fn lemma_dedupe_no_repeats(paths: Seq<Seq<char>>)
    ensures
        no_repeated_paths(dedupe_first(paths)),
    decreases paths.len(),
{
    if paths.len() > 0 {
        lemma_dedupe_no_repeats(paths.drop_last());
        let d = dedupe_first(paths.drop_last());
        if !has_path(d, paths.last()) {
            let e = d.push(paths.last());
            assert forall|i: int, j: int| 0 <= i < j < e.len() implies !same_path(
                #[trigger] e[i],
                #[trigger] e[j],
            ) by {
                if j == d.len() {
                    assert(e[i] == d[i]);
                    if same_path(d[i], paths.last()) {
                        assert(has_path(d, paths.last()));
                    }
                } else {
                    assert(e[i] == d[i] && e[j] == d[j]);
                }
            }
        }
    }
}

proof fn lemma_dedupe_covers(paths: Seq<Seq<char>>)
    ensures
        forall|k: int| 0 <= k < paths.len() ==> has_path(dedupe_first(paths), #[trigger] paths[k]),
        forall|i: int|
            0 <= i < dedupe_first(paths).len() ==> paths.contains(#[trigger] dedupe_first(paths)[i]),
    decreases paths.len(),
{
    if paths.len() > 0 {
        let q = paths.drop_last();
        lemma_dedupe_covers(q);
        let d = dedupe_first(q);
        let e = dedupe_first(paths);
        assert forall|k: int| 0 <= k < paths.len() implies has_path(e, #[trigger] paths[k]) by {
            if k < paths.len() - 1 {
                assert(q[k] == paths[k]);
                assert(has_path(d, q[k]));
                let w = choose|i: int| 0 <= i < d.len() && same_path(#[trigger] d[i], q[k]);
                assert(e[w] == d[w]);
            } else if !has_path(d, paths.last()) {
                assert(e[d.len() as int] == paths.last());
            }
        }
        assert forall|i: int| 0 <= i < e.len() implies paths.contains(#[trigger] e[i]) by {
            if i < d.len() {
                assert(e[i] == d[i]);
                assert(q.contains(d[i]));
                let w = choose|k: int| 0 <= k < q.len() && q[k] == d[i];
                assert(paths[w] == q[w]);
            } else {
                assert(e[i] == paths[paths.len() - 1]);
            }
        }
    }
}

proof fn lemma_dedupe_of_distinct(paths: Seq<Seq<char>>)
    requires
        no_repeated_paths(paths),
    ensures
        dedupe_first(paths) == paths,
    decreases paths.len(),
{
    if paths.len() > 0 {
        let q = paths.drop_last();
        assert(no_repeated_paths(q)) by {
            assert forall|i: int, j: int| 0 <= i < j < q.len() implies !same_path(
                #[trigger] q[i],
                #[trigger] q[j],
            ) by {
                assert(q[i] == paths[i] && q[j] == paths[j]);
            }
        }
        lemma_dedupe_of_distinct(q);
        if has_path(q, paths.last()) {
            let w = choose|i: int| 0 <= i < q.len() && same_path(#[trigger] q[i], paths.last());
            assert(paths[w] == q[w]);
            assert(!same_path(paths[w], paths[paths.len() - 1]));
        }
        assert(q.push(paths.last()) =~= paths);
    }
}

/// Removing repeated paths keeps one path for every path given, keeps only
/// paths that were given, leaves no two that name the same path, and
/// changes nothing when done a second time.
pub proof fn law_dedupe_paths(paths: Seq<Seq<char>>)
    ensures
        forall|k: int| 0 <= k < paths.len() ==> has_path(dedupe_first(paths), #[trigger] paths[k]),
        forall|i: int|
            0 <= i < dedupe_first(paths).len() ==> paths.contains(#[trigger] dedupe_first(paths)[i]),
        no_repeated_paths(dedupe_first(paths)),
        dedupe_first(dedupe_first(paths)) == dedupe_first(paths),
{
    lemma_dedupe_covers(paths);
    lemma_dedupe_no_repeats(paths);
    lemma_dedupe_of_distinct(dedupe_first(paths));
}

/// `pat` occurs somewhere in `s`.
pub open spec fn occurs(s: Seq<char>, pat: Seq<char>) -> bool {
    exists|i: int| 0 <= i <= s.len() - pat.len() && #[trigger] s.subrange(i, i + pat.len()) == pat
}

pub(crate) proof fn lemma_replace_absent(s: Seq<char>, pat: Seq<char>, rep: Seq<char>)
    requires
        !occurs(s, pat),
    ensures
        replace_all(s, pat, rep) == s,
    decreases s.len(),
{
    if pat.len() == 0 || s.len() < pat.len() {
    } else {
        if s.take(pat.len() as int) == pat {
            assert(s.subrange(0int, 0int + pat.len()) == pat);
            assert(occurs(s, pat));
        }
        let t = s.drop_first();
        assert(!occurs(t, pat)) by {
            if occurs(t, pat) {
                let i = choose|i: int| 0 <= i <= t.len() - pat.len() && #[trigger] t.subrange(i, i + pat.len()) == pat;
                assert(s.subrange(i + 1, i + 1 + pat.len()) =~= t.subrange(i, i + pat.len()));
            }
        }
        lemma_replace_absent(t, pat, rep);
        assert(seq![s[0]] + t =~= s);
    }
}

/// A value without `${pwd}` is left as it is.
pub proof fn law_expand_pwd_without_placeholder(value: Seq<char>, cwd: Seq<char>)
    requires
        !occurs(value, "${pwd}"@),
    ensures
        expand_pwd(value, cwd) == value,
{
    lemma_replace_absent(value, "${pwd}"@, cwd);
}

/// A blank env-file line holds no entry, and every entry that a line holds
/// has a non-empty key without `=`.
pub proof fn law_env_entry_shape(line: Seq<char>, source: Seq<char>, line_num: nat, cwd: Seq<char>)
    ensures
        trim(line).len() == 0 ==> env_entry(line, source, line_num, cwd) == Ok::<
            Option<(Seq<char>, Seq<char>)>,
            Seq<char>,
        >(None),
        env_entry(line, source, line_num, cwd) matches Ok(Some((k, v))) ==> k.len() > 0 && !k.contains('='),
{
    let t = trim(line);
    if let Some(k) = first_eq(t) {
        lemma_first_eq_prefix(t);
        if k > 0 {
            let key = t.take(k as int);
            assert forall|i: int| 0 <= i < key.len() implies key[i] != '=' by {
                assert(key[i] == t[i]);
            }
        }
    }
}

proof fn lemma_first_eq_prefix(s: Seq<char>)
    ensures
        first_eq(s) matches Some(k) ==> k < s.len() && s[k as int] == '=' && forall|i: int|
            0 <= i < k ==> s[i] != '=',
    decreases s.len(),
{
    if s.len() > 0 && s[0] != '=' {
        lemma_first_eq_prefix(s.drop_first());
        if let Some(k) = first_eq(s.drop_first()) {
            assert forall|i: int| 0 <= i < k + 1 implies s[i] != '=' by {
                if i > 0 {
                    assert(s[i] == s.drop_first()[i - 1]);
                }
            }
        }
    }
}


/// The value that the environment `m` gives `key`, if any.
pub open spec fn env_lookup(m: Seq<(Seq<char>, Seq<char>)>, key: Seq<char>) -> Option<Seq<char>> {
    match key_pos(m, key) {
        Some(k) => Some(m[k as int].1),
        None => None,
    }
}

/// No key of `m` is set twice.
pub open spec fn unique_keys(m: Seq<(Seq<char>, Seq<char>)>) -> bool {
    forall|i: int, j: int| 0 <= i < j < m.len() ==> (#[trigger] m[i]).0 != (#[trigger] m[j]).0
}

proof fn lemma_key_pos(m: Seq<(Seq<char>, Seq<char>)>, key: Seq<char>)
    ensures
        key_pos(m, key) matches Some(k) ==> k < m.len() && m[k as int].0 == key && forall|j: int|
            0 <= j < k ==> (#[trigger] m[j]).0 != key,
        key_pos(m, key) is None ==> forall|j: int| 0 <= j < m.len() ==> (#[trigger] m[j]).0 != key,
    decreases m.len(),
{
    if m.len() > 0 && m[0].0 != key {
        let t = m.drop_first();
        lemma_key_pos(t, key);
        assert forall|j: int| 0 < j < m.len() implies m[j] == t[j - 1] by {}
    }
}

proof fn lemma_key_pos_same_keys(m: Seq<(Seq<char>, Seq<char>)>, n: Seq<(Seq<char>, Seq<char>)>, key: Seq<char>)
    requires
        m.len() == n.len(),
        forall|j: int| 0 <= j < m.len() ==> (#[trigger] m[j]).0 == n[j].0,
    ensures
        key_pos(m, key) == key_pos(n, key),
    decreases m.len(),
{
    if m.len() > 0 {
        assert(m[0].0 == n[0].0);
        assert forall|j: int| 0 <= j < m.len() - 1 implies (#[trigger] m.drop_first()[j]).0
            == n.drop_first()[j].0 by {
            assert(m.drop_first()[j] == m[j + 1]);
            assert(n.drop_first()[j] == n[j + 1]);
        }
        lemma_key_pos_same_keys(m.drop_first(), n.drop_first(), key);
    }
}

/// Setting a key of the rustc environment is what a later lookup of it
/// gives, and leaves every other key as it was; and a setting never makes a
/// key appear twice.
pub proof fn law_env_set_lookup(
    m: Seq<(Seq<char>, Seq<char>)>,
    key: Seq<char>,
    value: Seq<char>,
    other: Seq<char>,
)
    ensures
        env_lookup(env_set(m, key, value), key) == Some(value),
        other != key ==> env_lookup(env_set(m, key, value), other) == env_lookup(m, other),
        unique_keys(m) ==> unique_keys(env_set(m, key, value)),
{
    let r = env_set(m, key, value);
    lemma_key_pos(m, key);
    lemma_key_pos(m, other);
    match key_pos(m, key) {
        Some(k) => {
            assert forall|j: int| 0 <= j < m.len() implies (#[trigger] m[j]).0 == r[j].0 by {
                if j == k {
                    assert(r[j] == (key, value));
                } else {
                    assert(r[j] == m[j]);
                }
            }
            lemma_key_pos_same_keys(m, r, key);
            lemma_key_pos_same_keys(m, r, other);
            if other != key {
                match key_pos(m, other) {
                    Some(j) => {
                        assert(j != k);
                        assert(r[j as int] == m[j as int]);
                    },
                    None => {},
                }
            }
        },
        None => {
            let n = m.len();
            lemma_key_pos(r, key);
            lemma_key_pos(r, other);
            assert forall|j: int| 0 <= j < n implies (#[trigger] r[j]) == m[j] by {}
            assert(r[n as int] == (key, value));
            match key_pos(r, key) {
                Some(p) => {
                    if p < n {
                        assert(r[p as int] == m[p as int]);
                    }
                },
                None => {
                    assert(r[n as int].0 == key);
                },
            }
            if other != key {
                match key_pos(m, other) {
                    Some(j) => {
                        match key_pos(r, other) {
                            Some(q) => {
                                if q < j {
                                    assert(r[q as int] == m[q as int]);
                                }
                                if j < q {
                                    assert(r[j as int] == m[j as int]);
                                }
                            },
                            None => {
                                assert(r[j as int] == m[j as int]);
                            },
                        }
                    },
                    None => {
                        match key_pos(r, other) {
                            Some(q) => {
                                if q < n {
                                    assert(r[q as int] == m[q as int]);
                                }
                            },
                            None => {},
                        }
                    },
                }
            }
        },
    }
}


proof fn lemma_env_lines_unique(
    m: Seq<(Seq<char>, Seq<char>)>,
    ls: Seq<Seq<char>>,
    source: Seq<char>,
    cwd: Seq<char>,
)
    requires
        unique_keys(m),
    ensures
        env_after_lines(m, ls, source, cwd) matches Ok(m2) ==> unique_keys(m2),
    decreases ls.len(),
{
    if ls.len() > 0 {
        lemma_env_lines_unique(m, ls.drop_last(), source, cwd);
        match env_after_lines(m, ls.drop_last(), source, cwd) {
            Ok(m1) => match env_entry(ls.last(), source, ls.len(), cwd) {
                Ok(Some((k, v))) => {
                    law_env_set_lookup(m1, k, v, k);
                },
                _ => {},
            },
            Err(_) => {},
        }
    }
}

/// The environment loaded from rustc env files sets no key twice.
pub proof fn law_loaded_env_has_unique_keys(files: Seq<(Seq<char>, Seq<char>)>, cwd: Seq<char>)
    ensures
        env_after_files(files, cwd) matches Ok(m) ==> unique_keys(m),
    decreases files.len(),
{
    if files.len() > 0 {
        law_loaded_env_has_unique_keys(files.drop_last(), cwd);
        match env_after_files(files.drop_last(), cwd) {
            Ok(m) => {
                lemma_env_lines_unique(m, lines(files.last().1), files.last().0, cwd);
            },
            Err(_) => {},
        }
    }
}


/// Where a mutant is built inside its temporary directory `tmp_dir`: the test
/// binary (`test_binary`), the crate root's copy, and the directory given to
/// rustc as `CARGO_MANIFEST_DIR`: the crate root's parent inside `tmp_dir`,
/// or `tmp_dir` itself when the crate root has no parent.
pub fn build_layout(tmp_dir: &str, crate_root: &str) -> (r: (String, String, String))
    ensures
        r.0@ == joined(tmp_dir@, "test_binary"@),
        r.1@ == joined(tmp_dir@, crate_root@),
        r.2@ == match parent_of(crate_root@) {
            Some(p) => joined(tmp_dir@, p),
            None => tmp_dir@,
        },
{
    let output = join_path(tmp_dir, "test_binary");
    let root = join_path(tmp_dir, crate_root);
    let manifest = match parent_path(crate_root) {
        Some(p) => join_path(tmp_dir, p.as_str()),
        None => crate::text::owned(tmp_dir),
    };
    (output, root, manifest)
}

} // verus!
