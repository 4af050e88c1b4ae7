//! The mutation runner's command line.
use vstd::prelude::*;
use crate::text::{chars_eq, chars_of, push_str, string_of, views};

verus! {

/// The runner's settings.
#[derive(Debug, Clone)]
pub struct Args {
    pub rustc: String,
    pub params_file: String,
    pub crate_root: String,
    pub sources_file: Option<String>,
    pub sources: Vec<String>,
    pub inputs_file: Option<String>,
    pub inputs: Vec<String>,
    pub rustc_env_file: Option<String>,
    pub rustc_env_files_list: Option<String>,
    pub cargo: Option<String>,
    pub cargo_mutants: Option<String>,
    pub mutants_config: Option<String>,
    pub allow_survivors: bool,
}

/// Why the runner's command line was refused.
#[derive(Debug, Clone, PartialEq, Eq)]
pub enum ArgsError {
    /// A flag that takes a value came last.
    MissingValue(String),
    /// An argument that the runner does not know.
    UnknownArgument(String),
    /// A required flag was not given.
    MissingRequired(String),
}

/// The settings read so far; the required ones may still be missing.
pub struct ArgsModel {
    pub rustc: Option<Seq<char>>,
    pub params_file: Option<Seq<char>>,
    pub crate_root: Option<Seq<char>>,
    pub sources_file: Option<Seq<char>>,
    pub sources: Seq<Seq<char>>,
    pub inputs_file: Option<Seq<char>>,
    pub inputs: Seq<Seq<char>>,
    pub rustc_env_file: Option<Seq<char>>,
    pub rustc_env_files_list: Option<Seq<char>>,
    pub cargo: Option<Seq<char>>,
    pub cargo_mutants: Option<Seq<char>>,
    pub mutants_config: Option<Seq<char>>,
    pub allow_survivors: bool,
}

/// The view of an argument error.
pub enum ArgsErrorView {
    MissingValue(Seq<char>),
    UnknownArgument(Seq<char>),
    MissingRequired(Seq<char>),
}

/// The view of an argument error.
pub open spec fn args_error_view(e: ArgsError) -> ArgsErrorView {
    match e {
        ArgsError::MissingValue(f) => ArgsErrorView::MissingValue(f@),
        ArgsError::UnknownArgument(a) => ArgsErrorView::UnknownArgument(a@),
        ArgsError::MissingRequired(f) => ArgsErrorView::MissingRequired(f@),
    }
}

/// The view of an optional string.
pub open spec fn opt_view(o: Option<String>) -> Option<Seq<char>> {
    match o {
        Some(s) => Some(s@),
        None => None,
    }
}

/// The view of the runner's settings.
pub open spec fn args_view(a: Args) -> ArgsModel {
    ArgsModel {
        rustc: Some(a.rustc@),
        params_file: Some(a.params_file@),
        crate_root: Some(a.crate_root@),
        sources_file: opt_view(a.sources_file),
        sources: views(a.sources@),
        inputs_file: opt_view(a.inputs_file),
        inputs: views(a.inputs@),
        rustc_env_file: opt_view(a.rustc_env_file),
        rustc_env_files_list: opt_view(a.rustc_env_files_list),
        cargo: opt_view(a.cargo),
        cargo_mutants: opt_view(a.cargo_mutants),
        mutants_config: opt_view(a.mutants_config),
        allow_survivors: a.allow_survivors,
    }
}

/// Nothing set yet.
pub open spec fn empty_model() -> ArgsModel {
    ArgsModel {
        rustc: None,
        params_file: None,
        crate_root: None,
        sources_file: None,
        sources: Seq::empty(),
        inputs_file: None,
        inputs: Seq::empty(),
        rustc_env_file: None,
        rustc_env_files_list: None,
        cargo: None,
        cargo_mutants: None,
        mutants_config: None,
        allow_survivors: false,
    }
}

/// The flags that take a value, in a fixed numbering.
pub open spec fn value_flag(a: Seq<char>) -> Option<nat> {
    if a == "--rustc"@ {
        Some(0)
    } else if a == "--params"@ {
        Some(1)
    } else if a == "--crate-root"@ {
        Some(2)
    } else if a == "--source"@ {
        Some(3)
    } else if a == "--sources-file"@ {
        Some(4)
    } else if a == "--input"@ {
        Some(5)
    } else if a == "--inputs-file"@ {
        Some(6)
    } else if a == "--rustc-env-file"@ {
        Some(7)
    } else if a == "--rustc-env-files-list"@ {
        Some(8)
    } else if a == "--cargo-mutants"@ {
        Some(9)
    } else if a == "--cargo"@ {
        Some(10)
    } else if a == "--mutants-config"@ {
        Some(11)
    } else {
        None
    }
}

/// The settings `st` after the flag numbered `id` was given the value `v`:
/// repeatable flags collect their values, the others keep the last one.
pub open spec fn set_flag(st: ArgsModel, id: nat, v: Seq<char>) -> ArgsModel {
    if id == 0 {
        ArgsModel { rustc: Some(v), ..st }
    } else if id == 1 {
        ArgsModel { params_file: Some(v), ..st }
    } else if id == 2 {
        ArgsModel { crate_root: Some(v), ..st }
    } else if id == 3 {
        ArgsModel { sources: st.sources.push(v), ..st }
    } else if id == 4 {
        ArgsModel { sources_file: Some(v), ..st }
    } else if id == 5 {
        ArgsModel { inputs: st.inputs.push(v), ..st }
    } else if id == 6 {
        ArgsModel { inputs_file: Some(v), ..st }
    } else if id == 7 {
        ArgsModel { rustc_env_file: Some(v), ..st }
    } else if id == 8 {
        ArgsModel { rustc_env_files_list: Some(v), ..st }
    } else if id == 9 {
        ArgsModel { cargo_mutants: Some(v), ..st }
    } else if id == 10 {
        ArgsModel { cargo: Some(v), ..st }
    } else {
        ArgsModel { mutants_config: Some(v), ..st }
    }
}

/// The settings made by the arguments from position `i` on, starting from
/// `st`: each value flag takes the argument after it, `--allow-survivors`
/// stands alone, and the first argument that is neither ends the reading.
pub open spec fn args_scan(raw: Seq<Seq<char>>, i: nat, st: ArgsModel) -> Result<
    ArgsModel,
    ArgsErrorView,
>
    decreases raw.len() - i,
{
    if i >= raw.len() {
        Ok(st)
    } else {
        let a = raw[i as int];
        if a == "--allow-survivors"@ {
            args_scan(raw, i + 1, ArgsModel { allow_survivors: true, ..st })
        } else {
            match value_flag(a) {
                Some(id) => {
                    if i + 1 >= raw.len() {
                        Err(ArgsErrorView::MissingValue(a))
                    } else {
                        args_scan(raw, i + 2, set_flag(st, id, raw[i + 1int]))
                    }
                },
                None => Err(ArgsErrorView::UnknownArgument(a)),
            }
        }
    }
}

/// The runner's settings from its whole command line (program name first),
/// or why it is refused; `--rustc`, `--params` and `--crate-root` are
/// required, checked in that order after every argument was read.
pub open spec fn parse_args_spec(raw: Seq<Seq<char>>) -> Result<ArgsModel, ArgsErrorView> {
    match args_scan(raw, 1, empty_model()) {
        Err(e) => Err(e),
        Ok(st) => if st.rustc is None {
            Err(ArgsErrorView::MissingRequired("--rustc"@))
        } else if st.params_file is None {
            Err(ArgsErrorView::MissingRequired("--params"@))
        } else if st.crate_root is None {
            Err(ArgsErrorView::MissingRequired("--crate-root"@))
        } else {
            Ok(st)
        },
    }
}

/// The message the runner prints for an argument error.
pub open spec fn args_error_message(e: ArgsErrorView) -> Seq<char> {
    match e {
        ArgsErrorView::MissingValue(f) => "Missing value for "@ + f,
        ArgsErrorView::UnknownArgument(a) => "Unknown argument: "@ + a,
        ArgsErrorView::MissingRequired(f) => f + " is required"@,
    }
}

impl ArgsError {
    /// The message the runner prints before exiting.
    pub fn message(&self) -> (r: String)
        ensures
            r@ == args_error_message(args_error_view(*self)),
    {
        let mut v: Vec<char> = Vec::new();
        match self {
            ArgsError::MissingValue(f) => {
                push_str(&mut v, "Missing value for ");
                push_str(&mut v, f.as_str());
            },
            ArgsError::UnknownArgument(a) => {
                push_str(&mut v, "Unknown argument: ");
                push_str(&mut v, a.as_str());
            },
            ArgsError::MissingRequired(f) => {
                push_str(&mut v, f.as_str());
                push_str(&mut v, " is required");
            },
        }
        string_of(&v)
    }
}

/// The settings while the command line is read.
struct Draft {
    rustc: Option<String>,
    params_file: Option<String>,
    crate_root: Option<String>,
    sources_file: Option<String>,
    sources: Vec<String>,
    inputs_file: Option<String>,
    inputs: Vec<String>,
    rustc_env_file: Option<String>,
    rustc_env_files_list: Option<String>,
    cargo: Option<String>,
    cargo_mutants: Option<String>,
    mutants_config: Option<String>,
    allow_survivors: bool,
}

spec fn draft_view(d: Draft) -> ArgsModel {
    ArgsModel {
        rustc: opt_view(d.rustc),
        params_file: opt_view(d.params_file),
        crate_root: opt_view(d.crate_root),
        sources_file: opt_view(d.sources_file),
        sources: views(d.sources@),
        inputs_file: opt_view(d.inputs_file),
        inputs: views(d.inputs@),
        rustc_env_file: opt_view(d.rustc_env_file),
        rustc_env_files_list: opt_view(d.rustc_env_files_list),
        cargo: opt_view(d.cargo),
        cargo_mutants: opt_view(d.cargo_mutants),
        mutants_config: opt_view(d.mutants_config),
        allow_survivors: d.allow_survivors,
    }
}

fn value_flag_id(a: &Vec<char>) -> (r: Option<u8>)
    ensures
        r matches Some(id) ==> value_flag(a@) == Some(id as nat),
        r is None ==> value_flag(a@) is None,
{
    if chars_eq(a, &chars_of("--rustc")) {
        Some(0)
    } else if chars_eq(a, &chars_of("--params")) {
        Some(1)
    } else if chars_eq(a, &chars_of("--crate-root")) {
        Some(2)
    } else if chars_eq(a, &chars_of("--source")) {
        Some(3)
    } else if chars_eq(a, &chars_of("--sources-file")) {
        Some(4)
    } else if chars_eq(a, &chars_of("--input")) {
        Some(5)
    } else if chars_eq(a, &chars_of("--inputs-file")) {
        Some(6)
    } else if chars_eq(a, &chars_of("--rustc-env-file")) {
        Some(7)
    } else if chars_eq(a, &chars_of("--rustc-env-files-list")) {
        Some(8)
    } else if chars_eq(a, &chars_of("--cargo-mutants")) {
        Some(9)
    } else if chars_eq(a, &chars_of("--cargo")) {
        Some(10)
    } else if chars_eq(a, &chars_of("--mutants-config")) {
        Some(11)
    } else {
        None
    }
}

fn set_draft(d: &mut Draft, id: u8, v: String)
    requires
        id <= 11,
    ensures
        draft_view(*final(d)) == set_flag(draft_view(*old(d)), id as nat, v@),
{
    let ghost d0 = draft_view(*d);
    if id == 0 {
        d.rustc = Some(v);
    } else if id == 1 {
        d.params_file = Some(v);
    } else if id == 2 {
        d.crate_root = Some(v);
    } else if id == 3 {
        d.sources.push(v);
        assert(views(d.sources@) =~= d0.sources.push(v@));
    } else if id == 4 {
        d.sources_file = Some(v);
    } else if id == 5 {
        d.inputs.push(v);
        assert(views(d.inputs@) =~= d0.inputs.push(v@));
    } else if id == 6 {
        d.inputs_file = Some(v);
    } else if id == 7 {
        d.rustc_env_file = Some(v);
    } else if id == 8 {
        d.rustc_env_files_list = Some(v);
    } else if id == 9 {
        d.cargo_mutants = Some(v);
    } else if id == 10 {
        d.cargo = Some(v);
    } else {
        d.mutants_config = Some(v);
    }
}

/// Reads the runner's command line (program name first). Flags that take a
/// value take the argument that follows them; `--source` and `--input` may be
/// repeated, the other flags keep their last value. An error for a value flag
/// that comes last, for the first unknown argument, or for a missing
/// `--rustc`, `--params` or `--crate-root`.
pub fn parse_args(raw: &Vec<String>) -> (r: Result<Args, ArgsError>)
    ensures
        r matches Ok(a) ==> parse_args_spec(views(raw@)) == Ok::<ArgsModel, ArgsErrorView>(args_view(a)),
        r matches Err(e) ==> parse_args_spec(views(raw@)) == Err::<ArgsModel, ArgsErrorView>(args_error_view(e)),
{
    let ghost rv = views(raw@);
    let mut d = Draft {
        rustc: None,
        params_file: None,
        crate_root: None,
        sources_file: None,
        sources: Vec::new(),
        inputs_file: None,
        inputs: Vec::new(),
        rustc_env_file: None,
        rustc_env_files_list: None,
        cargo: None,
        cargo_mutants: None,
        mutants_config: None,
        allow_survivors: false,
    };
    assert(draft_view(d).sources =~= Seq::<Seq<char>>::empty());
    assert(draft_view(d).inputs =~= Seq::<Seq<char>>::empty());
    assert(draft_view(d) == empty_model());
    let survivors_flag = chars_of("--allow-survivors");
    let mut i: usize = 1;
    while i < raw.len()
        invariant
            1 <= i,
            rv == views(raw@),
            survivors_flag@ == "--allow-survivors"@,
            args_scan(rv, i as nat, draft_view(d)) == args_scan(rv, 1, empty_model()),
        decreases raw.len() - i,
    {
        let a = chars_of(raw[i].as_str());
        assert(rv[i as int] == a@);
        if chars_eq(&a, &survivors_flag) {
            d.allow_survivors = true;
            i += 1;
        } else {
            match value_flag_id(&a) {
                Some(id) => {
                    if i + 1 >= raw.len() {
                        return Err(ArgsError::MissingValue(raw[i].clone()));
                    }
                    assert(rv[i + 1] == raw@[i + 1]@);
                    set_draft(&mut d, id, raw[i + 1].clone());
                    i += 2;
                },
                None => {
                    return Err(ArgsError::UnknownArgument(raw[i].clone()));
                },
            }
        }
    }
    let rustc = match d.rustc {
        Some(v) => v,
        None => return Err(ArgsError::MissingRequired(string_of(&chars_of("--rustc")))),
    };
    let params_file = match d.params_file {
        Some(v) => v,
        None => return Err(ArgsError::MissingRequired(string_of(&chars_of("--params")))),
    };
    let crate_root = match d.crate_root {
        Some(v) => v,
        None => return Err(ArgsError::MissingRequired(string_of(&chars_of("--crate-root")))),
    };
    Ok(
        Args {
            rustc,
            params_file,
            crate_root,
            sources_file: d.sources_file,
            sources: d.sources,
            inputs_file: d.inputs_file,
            inputs: d.inputs,
            rustc_env_file: d.rustc_env_file,
            rustc_env_files_list: d.rustc_env_files_list,
            cargo: d.cargo,
            cargo_mutants: d.cargo_mutants,
            mutants_config: d.mutants_config,
            allow_survivors: d.allow_survivors,
        },
    )
}


/// Each flag that takes a value gives it to its own setting, and to no other:
/// `--source` and `--input` add it to their lists, every other value flag
/// sets its field to it; `--allow-survivors` sets only that switch; reading
/// then goes on after them.
pub proof fn law_flags_set_their_own_field(raw: Seq<Seq<char>>, i: nat, st: ArgsModel)
    requires
        i + 1 < raw.len(),
    ensures
        raw[i as int] == "--rustc"@ ==> args_scan(raw, i, st) == args_scan(
            raw,
            i + 2,
            ArgsModel { rustc: Some(raw[i + 1int]), ..st },
        ),
        raw[i as int] == "--params"@ ==> args_scan(raw, i, st) == args_scan(
            raw,
            i + 2,
            ArgsModel { params_file: Some(raw[i + 1int]), ..st },
        ),
        raw[i as int] == "--crate-root"@ ==> args_scan(raw, i, st) == args_scan(
            raw,
            i + 2,
            ArgsModel { crate_root: Some(raw[i + 1int]), ..st },
        ),
        raw[i as int] == "--source"@ ==> args_scan(raw, i, st) == args_scan(
            raw,
            i + 2,
            ArgsModel { sources: st.sources.push(raw[i + 1int]), ..st },
        ),
        raw[i as int] == "--sources-file"@ ==> args_scan(raw, i, st) == args_scan(
            raw,
            i + 2,
            ArgsModel { sources_file: Some(raw[i + 1int]), ..st },
        ),
        raw[i as int] == "--input"@ ==> args_scan(raw, i, st) == args_scan(
            raw,
            i + 2,
            ArgsModel { inputs: st.inputs.push(raw[i + 1int]), ..st },
        ),
        raw[i as int] == "--inputs-file"@ ==> args_scan(raw, i, st) == args_scan(
            raw,
            i + 2,
            ArgsModel { inputs_file: Some(raw[i + 1int]), ..st },
        ),
        raw[i as int] == "--rustc-env-file"@ ==> args_scan(raw, i, st) == args_scan(
            raw,
            i + 2,
            ArgsModel { rustc_env_file: Some(raw[i + 1int]), ..st },
        ),
        raw[i as int] == "--rustc-env-files-list"@ ==> args_scan(raw, i, st) == args_scan(
            raw,
            i + 2,
            ArgsModel { rustc_env_files_list: Some(raw[i + 1int]), ..st },
        ),
        raw[i as int] == "--cargo-mutants"@ ==> args_scan(raw, i, st) == args_scan(
            raw,
            i + 2,
            ArgsModel { cargo_mutants: Some(raw[i + 1int]), ..st },
        ),
        raw[i as int] == "--cargo"@ ==> args_scan(raw, i, st) == args_scan(
            raw,
            i + 2,
            ArgsModel { cargo: Some(raw[i + 1int]), ..st },
        ),
        raw[i as int] == "--mutants-config"@ ==> args_scan(raw, i, st) == args_scan(
            raw,
            i + 2,
            ArgsModel { mutants_config: Some(raw[i + 1int]), ..st },
        ),
        raw[i as int] == "--allow-survivors"@ ==> args_scan(raw, i, st) == args_scan(
            raw,
            i + 1,
            ArgsModel { allow_survivors: true, ..st },
        ),
{
    if raw[i as int] == "--rustc"@ {
        assert("--rustc"@ != "--allow-survivors"@) by {
            reveal_strlit("--rustc");
            reveal_strlit("--allow-survivors");
            assert("--rustc"@.len() != "--allow-survivors"@.len());
        }
        assert(value_flag("--rustc"@) == Some(0nat)) by {
        }
    }
    if raw[i as int] == "--params"@ {
        assert("--params"@ != "--allow-survivors"@) by {
            reveal_strlit("--params");
            reveal_strlit("--allow-survivors");
            assert("--params"@.len() != "--allow-survivors"@.len());
        }
        assert(value_flag("--params"@) == Some(1nat)) by {
            assert("--params"@ != "--rustc"@) by {
                reveal_strlit("--params");
                reveal_strlit("--rustc");
                assert("--params"@.len() != "--rustc"@.len());
            }
        }
    }
    if raw[i as int] == "--crate-root"@ {
        assert("--crate-root"@ != "--allow-survivors"@) by {
            reveal_strlit("--crate-root");
            reveal_strlit("--allow-survivors");
            assert("--crate-root"@.len() != "--allow-survivors"@.len());
        }
        assert(value_flag("--crate-root"@) == Some(2nat)) by {
            assert("--crate-root"@ != "--rustc"@) by {
                reveal_strlit("--crate-root");
                reveal_strlit("--rustc");
                assert("--crate-root"@.len() != "--rustc"@.len());
            }
            assert("--crate-root"@ != "--params"@) by {
                reveal_strlit("--crate-root");
                reveal_strlit("--params");
                assert("--crate-root"@.len() != "--params"@.len());
            }
        }
    }
    if raw[i as int] == "--source"@ {
        assert("--source"@ != "--allow-survivors"@) by {
            reveal_strlit("--source");
            reveal_strlit("--allow-survivors");
            assert("--source"@.len() != "--allow-survivors"@.len());
        }
        assert(value_flag("--source"@) == Some(3nat)) by {
            assert("--source"@ != "--rustc"@) by {
                reveal_strlit("--source");
                reveal_strlit("--rustc");
                assert("--source"@.len() != "--rustc"@.len());
            }
            assert("--source"@ != "--params"@) by {
                reveal_strlit("--source");
                reveal_strlit("--params");
                assert("--source"@[2] != "--params"@[2]);
            }
            assert("--source"@ != "--crate-root"@) by {
                reveal_strlit("--source");
                reveal_strlit("--crate-root");
                assert("--source"@.len() != "--crate-root"@.len());
            }
        }
    }
    if raw[i as int] == "--sources-file"@ {
        assert("--sources-file"@ != "--allow-survivors"@) by {
            reveal_strlit("--sources-file");
            reveal_strlit("--allow-survivors");
            assert("--sources-file"@.len() != "--allow-survivors"@.len());
        }
        assert(value_flag("--sources-file"@) == Some(4nat)) by {
            assert("--sources-file"@ != "--rustc"@) by {
                reveal_strlit("--sources-file");
                reveal_strlit("--rustc");
                assert("--sources-file"@.len() != "--rustc"@.len());
            }
            assert("--sources-file"@ != "--params"@) by {
                reveal_strlit("--sources-file");
                reveal_strlit("--params");
                assert("--sources-file"@.len() != "--params"@.len());
            }
            assert("--sources-file"@ != "--crate-root"@) by {
                reveal_strlit("--sources-file");
                reveal_strlit("--crate-root");
                assert("--sources-file"@.len() != "--crate-root"@.len());
            }
            assert("--sources-file"@ != "--source"@) by {
                reveal_strlit("--sources-file");
                reveal_strlit("--source");
                assert("--sources-file"@.len() != "--source"@.len());
            }
        }
    }
    if raw[i as int] == "--input"@ {
        assert("--input"@ != "--allow-survivors"@) by {
            reveal_strlit("--input");
            reveal_strlit("--allow-survivors");
            assert("--input"@.len() != "--allow-survivors"@.len());
        }
        assert(value_flag("--input"@) == Some(5nat)) by {
            assert("--input"@ != "--rustc"@) by {
                reveal_strlit("--input");
                reveal_strlit("--rustc");
                assert("--input"@[2] != "--rustc"@[2]);
            }
            assert("--input"@ != "--params"@) by {
                reveal_strlit("--input");
                reveal_strlit("--params");
                assert("--input"@.len() != "--params"@.len());
            }
            assert("--input"@ != "--crate-root"@) by {
                reveal_strlit("--input");
                reveal_strlit("--crate-root");
                assert("--input"@.len() != "--crate-root"@.len());
            }
            assert("--input"@ != "--source"@) by {
                reveal_strlit("--input");
                reveal_strlit("--source");
                assert("--input"@.len() != "--source"@.len());
            }
            assert("--input"@ != "--sources-file"@) by {
                reveal_strlit("--input");
                reveal_strlit("--sources-file");
                assert("--input"@.len() != "--sources-file"@.len());
            }
        }
    }
    if raw[i as int] == "--inputs-file"@ {
        assert("--inputs-file"@ != "--allow-survivors"@) by {
            reveal_strlit("--inputs-file");
            reveal_strlit("--allow-survivors");
            assert("--inputs-file"@.len() != "--allow-survivors"@.len());
        }
        assert(value_flag("--inputs-file"@) == Some(6nat)) by {
            assert("--inputs-file"@ != "--rustc"@) by {
                reveal_strlit("--inputs-file");
                reveal_strlit("--rustc");
                assert("--inputs-file"@.len() != "--rustc"@.len());
            }
            assert("--inputs-file"@ != "--params"@) by {
                reveal_strlit("--inputs-file");
                reveal_strlit("--params");
                assert("--inputs-file"@.len() != "--params"@.len());
            }
            assert("--inputs-file"@ != "--crate-root"@) by {
                reveal_strlit("--inputs-file");
                reveal_strlit("--crate-root");
                assert("--inputs-file"@.len() != "--crate-root"@.len());
            }
            assert("--inputs-file"@ != "--source"@) by {
                reveal_strlit("--inputs-file");
                reveal_strlit("--source");
                assert("--inputs-file"@.len() != "--source"@.len());
            }
            assert("--inputs-file"@ != "--sources-file"@) by {
                reveal_strlit("--inputs-file");
                reveal_strlit("--sources-file");
                assert("--inputs-file"@.len() != "--sources-file"@.len());
            }
            assert("--inputs-file"@ != "--input"@) by {
                reveal_strlit("--inputs-file");
                reveal_strlit("--input");
                assert("--inputs-file"@.len() != "--input"@.len());
            }
        }
    }
    if raw[i as int] == "--rustc-env-file"@ {
        assert("--rustc-env-file"@ != "--allow-survivors"@) by {
            reveal_strlit("--rustc-env-file");
            reveal_strlit("--allow-survivors");
            assert("--rustc-env-file"@.len() != "--allow-survivors"@.len());
        }
        assert(value_flag("--rustc-env-file"@) == Some(7nat)) by {
            assert("--rustc-env-file"@ != "--rustc"@) by {
                reveal_strlit("--rustc-env-file");
                reveal_strlit("--rustc");
                assert("--rustc-env-file"@.len() != "--rustc"@.len());
            }
            assert("--rustc-env-file"@ != "--params"@) by {
                reveal_strlit("--rustc-env-file");
                reveal_strlit("--params");
                assert("--rustc-env-file"@.len() != "--params"@.len());
            }
            assert("--rustc-env-file"@ != "--crate-root"@) by {
                reveal_strlit("--rustc-env-file");
                reveal_strlit("--crate-root");
                assert("--rustc-env-file"@.len() != "--crate-root"@.len());
            }
            assert("--rustc-env-file"@ != "--source"@) by {
                reveal_strlit("--rustc-env-file");
                reveal_strlit("--source");
                assert("--rustc-env-file"@.len() != "--source"@.len());
            }
            assert("--rustc-env-file"@ != "--sources-file"@) by {
                reveal_strlit("--rustc-env-file");
                reveal_strlit("--sources-file");
                assert("--rustc-env-file"@.len() != "--sources-file"@.len());
            }
            assert("--rustc-env-file"@ != "--input"@) by {
                reveal_strlit("--rustc-env-file");
                reveal_strlit("--input");
                assert("--rustc-env-file"@.len() != "--input"@.len());
            }
            assert("--rustc-env-file"@ != "--inputs-file"@) by {
                reveal_strlit("--rustc-env-file");
                reveal_strlit("--inputs-file");
                assert("--rustc-env-file"@.len() != "--inputs-file"@.len());
            }
        }
    }
    if raw[i as int] == "--rustc-env-files-list"@ {
        assert("--rustc-env-files-list"@ != "--allow-survivors"@) by {
            reveal_strlit("--rustc-env-files-list");
            reveal_strlit("--allow-survivors");
            assert("--rustc-env-files-list"@.len() != "--allow-survivors"@.len());
        }
        assert(value_flag("--rustc-env-files-list"@) == Some(8nat)) by {
            assert("--rustc-env-files-list"@ != "--rustc"@) by {
                reveal_strlit("--rustc-env-files-list");
                reveal_strlit("--rustc");
                assert("--rustc-env-files-list"@.len() != "--rustc"@.len());
            }
            assert("--rustc-env-files-list"@ != "--params"@) by {
                reveal_strlit("--rustc-env-files-list");
                reveal_strlit("--params");
                assert("--rustc-env-files-list"@.len() != "--params"@.len());
            }
            assert("--rustc-env-files-list"@ != "--crate-root"@) by {
                reveal_strlit("--rustc-env-files-list");
                reveal_strlit("--crate-root");
                assert("--rustc-env-files-list"@.len() != "--crate-root"@.len());
            }
            assert("--rustc-env-files-list"@ != "--source"@) by {
                reveal_strlit("--rustc-env-files-list");
                reveal_strlit("--source");
                assert("--rustc-env-files-list"@.len() != "--source"@.len());
            }
            assert("--rustc-env-files-list"@ != "--sources-file"@) by {
                reveal_strlit("--rustc-env-files-list");
                reveal_strlit("--sources-file");
                assert("--rustc-env-files-list"@.len() != "--sources-file"@.len());
            }
            assert("--rustc-env-files-list"@ != "--input"@) by {
                reveal_strlit("--rustc-env-files-list");
                reveal_strlit("--input");
                assert("--rustc-env-files-list"@.len() != "--input"@.len());
            }
            assert("--rustc-env-files-list"@ != "--inputs-file"@) by {
                reveal_strlit("--rustc-env-files-list");
                reveal_strlit("--inputs-file");
                assert("--rustc-env-files-list"@.len() != "--inputs-file"@.len());
            }
            assert("--rustc-env-files-list"@ != "--rustc-env-file"@) by {
                reveal_strlit("--rustc-env-files-list");
                reveal_strlit("--rustc-env-file");
                assert("--rustc-env-files-list"@.len() != "--rustc-env-file"@.len());
            }
        }
    }
    if raw[i as int] == "--cargo-mutants"@ {
        assert("--cargo-mutants"@ != "--allow-survivors"@) by {
            reveal_strlit("--cargo-mutants");
            reveal_strlit("--allow-survivors");
            assert("--cargo-mutants"@.len() != "--allow-survivors"@.len());
        }
        assert(value_flag("--cargo-mutants"@) == Some(9nat)) by {
            assert("--cargo-mutants"@ != "--rustc"@) by {
                reveal_strlit("--cargo-mutants");
                reveal_strlit("--rustc");
                assert("--cargo-mutants"@.len() != "--rustc"@.len());
            }
            assert("--cargo-mutants"@ != "--params"@) by {
                reveal_strlit("--cargo-mutants");
                reveal_strlit("--params");
                assert("--cargo-mutants"@.len() != "--params"@.len());
            }
            assert("--cargo-mutants"@ != "--crate-root"@) by {
                reveal_strlit("--cargo-mutants");
                reveal_strlit("--crate-root");
                assert("--cargo-mutants"@.len() != "--crate-root"@.len());
            }
            assert("--cargo-mutants"@ != "--source"@) by {
                reveal_strlit("--cargo-mutants");
                reveal_strlit("--source");
                assert("--cargo-mutants"@.len() != "--source"@.len());
            }
            assert("--cargo-mutants"@ != "--sources-file"@) by {
                reveal_strlit("--cargo-mutants");
                reveal_strlit("--sources-file");
                assert("--cargo-mutants"@.len() != "--sources-file"@.len());
            }
            assert("--cargo-mutants"@ != "--input"@) by {
                reveal_strlit("--cargo-mutants");
                reveal_strlit("--input");
                assert("--cargo-mutants"@.len() != "--input"@.len());
            }
            assert("--cargo-mutants"@ != "--inputs-file"@) by {
                reveal_strlit("--cargo-mutants");
                reveal_strlit("--inputs-file");
                assert("--cargo-mutants"@.len() != "--inputs-file"@.len());
            }
            assert("--cargo-mutants"@ != "--rustc-env-file"@) by {
                reveal_strlit("--cargo-mutants");
                reveal_strlit("--rustc-env-file");
                assert("--cargo-mutants"@.len() != "--rustc-env-file"@.len());
            }
            assert("--cargo-mutants"@ != "--rustc-env-files-list"@) by {
                reveal_strlit("--cargo-mutants");
                reveal_strlit("--rustc-env-files-list");
                assert("--cargo-mutants"@.len() != "--rustc-env-files-list"@.len());
            }
        }
    }
    if raw[i as int] == "--cargo"@ {
        assert("--cargo"@ != "--allow-survivors"@) by {
            reveal_strlit("--cargo");
            reveal_strlit("--allow-survivors");
            assert("--cargo"@.len() != "--allow-survivors"@.len());
        }
        assert(value_flag("--cargo"@) == Some(10nat)) by {
            assert("--cargo"@ != "--rustc"@) by {
                reveal_strlit("--cargo");
                reveal_strlit("--rustc");
                assert("--cargo"@[2] != "--rustc"@[2]);
            }
            assert("--cargo"@ != "--params"@) by {
                reveal_strlit("--cargo");
                reveal_strlit("--params");
                assert("--cargo"@.len() != "--params"@.len());
            }
            assert("--cargo"@ != "--crate-root"@) by {
                reveal_strlit("--cargo");
                reveal_strlit("--crate-root");
                assert("--cargo"@.len() != "--crate-root"@.len());
            }
            assert("--cargo"@ != "--source"@) by {
                reveal_strlit("--cargo");
                reveal_strlit("--source");
                assert("--cargo"@.len() != "--source"@.len());
            }
            assert("--cargo"@ != "--sources-file"@) by {
                reveal_strlit("--cargo");
                reveal_strlit("--sources-file");
                assert("--cargo"@.len() != "--sources-file"@.len());
            }
            assert("--cargo"@ != "--input"@) by {
                reveal_strlit("--cargo");
                reveal_strlit("--input");
                assert("--cargo"@[2] != "--input"@[2]);
            }
            assert("--cargo"@ != "--inputs-file"@) by {
                reveal_strlit("--cargo");
                reveal_strlit("--inputs-file");
                assert("--cargo"@.len() != "--inputs-file"@.len());
            }
            assert("--cargo"@ != "--rustc-env-file"@) by {
                reveal_strlit("--cargo");
                reveal_strlit("--rustc-env-file");
                assert("--cargo"@.len() != "--rustc-env-file"@.len());
            }
            assert("--cargo"@ != "--rustc-env-files-list"@) by {
                reveal_strlit("--cargo");
                reveal_strlit("--rustc-env-files-list");
                assert("--cargo"@.len() != "--rustc-env-files-list"@.len());
            }
            assert("--cargo"@ != "--cargo-mutants"@) by {
                reveal_strlit("--cargo");
                reveal_strlit("--cargo-mutants");
                assert("--cargo"@.len() != "--cargo-mutants"@.len());
            }
        }
    }
    if raw[i as int] == "--mutants-config"@ {
        assert("--mutants-config"@ != "--allow-survivors"@) by {
            reveal_strlit("--mutants-config");
            reveal_strlit("--allow-survivors");
            assert("--mutants-config"@.len() != "--allow-survivors"@.len());
        }
        assert(value_flag("--mutants-config"@) == Some(11nat)) by {
            assert("--mutants-config"@ != "--rustc"@) by {
                reveal_strlit("--mutants-config");
                reveal_strlit("--rustc");
                assert("--mutants-config"@.len() != "--rustc"@.len());
            }
            assert("--mutants-config"@ != "--params"@) by {
                reveal_strlit("--mutants-config");
                reveal_strlit("--params");
                assert("--mutants-config"@.len() != "--params"@.len());
            }
            assert("--mutants-config"@ != "--crate-root"@) by {
                reveal_strlit("--mutants-config");
                reveal_strlit("--crate-root");
                assert("--mutants-config"@.len() != "--crate-root"@.len());
            }
            assert("--mutants-config"@ != "--source"@) by {
                reveal_strlit("--mutants-config");
                reveal_strlit("--source");
                assert("--mutants-config"@.len() != "--source"@.len());
            }
            assert("--mutants-config"@ != "--sources-file"@) by {
                reveal_strlit("--mutants-config");
                reveal_strlit("--sources-file");
                assert("--mutants-config"@.len() != "--sources-file"@.len());
            }
            assert("--mutants-config"@ != "--input"@) by {
                reveal_strlit("--mutants-config");
                reveal_strlit("--input");
                assert("--mutants-config"@.len() != "--input"@.len());
            }
            assert("--mutants-config"@ != "--inputs-file"@) by {
                reveal_strlit("--mutants-config");
                reveal_strlit("--inputs-file");
                assert("--mutants-config"@.len() != "--inputs-file"@.len());
            }
            assert("--mutants-config"@ != "--rustc-env-file"@) by {
                reveal_strlit("--mutants-config");
                reveal_strlit("--rustc-env-file");
                assert("--mutants-config"@[2] != "--rustc-env-file"@[2]);
            }
            assert("--mutants-config"@ != "--rustc-env-files-list"@) by {
                reveal_strlit("--mutants-config");
                reveal_strlit("--rustc-env-files-list");
                assert("--mutants-config"@.len() != "--rustc-env-files-list"@.len());
            }
            assert("--mutants-config"@ != "--cargo-mutants"@) by {
                reveal_strlit("--mutants-config");
                reveal_strlit("--cargo-mutants");
                assert("--mutants-config"@.len() != "--cargo-mutants"@.len());
            }
            assert("--mutants-config"@ != "--cargo"@) by {
                reveal_strlit("--mutants-config");
                reveal_strlit("--cargo");
                assert("--mutants-config"@.len() != "--cargo"@.len());
            }
        }
    }
    reveal_strlit("--allow-survivors");
}

} // verus!
