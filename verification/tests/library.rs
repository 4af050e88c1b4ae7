use rust_mutation::args::{parse_args, ArgsError};
use rust_mutation::campaign::{
    check_baseline, compile_outcome, format_process_output, mutant_name, record_mutant_outcome,
    survivors_failure, test_outcome, CampaignReport, FileMutant, MutantResult, MutantStatus, RunOutcome,
};
use rust_mutation::cargo_mutants::{
    collect_json_mutants_from_value, listing_line_texts, listing_text, mutants_for_source,
    mutants_from_documents, mutants_from_listing_run, parse_cargo_mutants_json, CargoJsonMutant,
    JsonValue,
};
use rust_mutation::config::{
    check_mutation_source, dedupe_paths, expand_pwd_placeholders, parse_env_entry, parse_path_list,
    read_source_paths, rustc_env_file_paths, temp_dir_error, temp_dir_name, tmpdir_env_keys,
    passthrough_env_vars, load_rustc_env, next_temp_dir_step, build_layout, temp_dir_vars, TempDirEvent, TempDirStep,
    CRATE_ROOT_PLACEHOLDER, TEMP_DIR_ATTEMPTS,
};
use rust_mutation::diff::{apply_unified_diff, apply_unified_diff_checked, parse_hunk_old_start, strip_trailing_newline};
use rust_mutation::params_writer::{
    expand_action_args, normalize_strip_prefixes, param_file_args, param_file_path, read_build_flags,
    should_drop_arg, strip_execroot_prefixes,
};
use rust_mutation::path_order::{path_less, sort_paths};
use rust_mutation::paths::{contains_path, join_path, parent_path, paths_equal, resolve_against_cwd};
use rust_mutation::text::{blank, chars_of, decimal_chars, owned, string_of, nonempty_trimmed_lines};

fn strings(items: &[&str]) -> Vec<String> {
    items.iter().map(|s| s.to_string()).collect()
}

fn mutant(name: &str, diff: &str) -> FileMutant {
    FileMutant {
        source_path: "src/lib.rs".to_string(),
        name: name.to_string(),
        mutated_source: String::new(),
        diff: diff.to_string(),
    }
}

#[test]
fn text_conversions_and_trimming() {
    assert_eq!(chars_of("héllo"), vec!['h', 'é', 'l', 'l', 'o']);
    assert_eq!(string_of(&vec!['a', 'ß']), "aß");
    assert_eq!(owned("x y"), "x y");
    assert!(blank(" \t\r\n\u{3000}"));
    assert!(!blank(" a "));
    assert_eq!(decimal_chars(0), vec!['0']);
    assert_eq!(decimal_chars(1203), vec!['1', '2', '0', '3']);
    assert_eq!(nonempty_trimmed_lines("  a \n\n b\r\n   \nc"), strings(&["a", "b", "c"]));
}

#[test]
fn hunk_header_start_lines() {
    assert_eq!(parse_hunk_old_start("@@ -12,3 +12,4 @@"), Some(12));
    assert_eq!(parse_hunk_old_start("@@ -0,0 +1 @@"), Some(0));
    assert_eq!(parse_hunk_old_start("x @@ a-7 @@"), Some(7));
    assert_eq!(parse_hunk_old_start("@@ +1,2 @@"), None);
    assert_eq!(parse_hunk_old_start("@@ -x @@"), None);
    assert_eq!(parse_hunk_old_start("-1 @@"), None);
    assert_eq!(parse_hunk_old_start("@@ -99999999999999999999999 @@"), None);
    assert_eq!(strip_trailing_newline("a\n"), "a");
    assert_eq!(strip_trailing_newline("a\r\n"), "a\r");
    assert_eq!(strip_trailing_newline("a"), "a");
}

#[test]
fn diff_application_cases() {
    let original = "one\ntwo\nthree\nfour\n";
    // A hunk in the middle keeps the lines around it.
    let diff = "@@ -2,2 +2,2 @@\n two\n-three\n+THREE\n";
    assert_eq!(apply_unified_diff(original, diff).unwrap(), "one\ntwo\nTHREE\nfour\n");
    // Two hunks.
    let diff = "@@ -1 +1 @@\n-one\n+ONE\n@@ -4 +4 @@\n-four\n+FOUR\n";
    assert_eq!(apply_unified_diff(original, diff).unwrap(), "ONE\ntwo\nthree\nFOUR\n");
    // An added line that has no final newline.
    let diff = "@@ -4 +4 @@\n-four\n+last\n\\ No newline at end of file\n";
    assert_eq!(apply_unified_diff(original, diff).unwrap(), "one\ntwo\nthree\nlast");
    // A source without a final newline.
    assert_eq!(apply_unified_diff("a\nb", "@@ -2 +2 @@\n-b\n+c\n").unwrap(), "a\nc\n");
    // A context-only hunk over the first lines: the source is unchanged.
    let diff = "@@ -1,2 +1,2 @@\n one\n two\n";
    assert_eq!(apply_unified_diff(original, diff).unwrap(), original);
    // Context-only hunk: the source is unchanged.
    let diff = "@@ -1 +1 @@\n one\n two\n three\n four\n";
    assert_eq!(apply_unified_diff(original, diff).unwrap(), original);
}

#[test]
fn diff_application_errors() {
    let original = "one\ntwo\n";
    assert_eq!(
        apply_unified_diff(original, "--- a\n+++ b\n").unwrap_err(),
        "No unified diff hunks were found"
    );
    assert_eq!(
        apply_unified_diff(original, "@@ bad @@\n").unwrap_err(),
        "Invalid unified diff hunk header: @@ bad @@"
    );
    assert_eq!(
        apply_unified_diff(original, "@@ -1 @@\n zero\n").unwrap_err(),
        "Unified diff context line does not match source"
    );
    assert_eq!(
        apply_unified_diff(original, "@@ -1 @@\n-zero\n").unwrap_err(),
        "Unified diff deletion line does not match source"
    );
    assert_eq!(
        apply_unified_diff(original, "@@ -3 @@\n three\n").unwrap_err(),
        "Unified diff context line exceeded source length"
    );
    assert_eq!(
        apply_unified_diff(original, "@@ -3 @@\n-three\n").unwrap_err(),
        "Unified diff deletion line exceeded source length"
    );
    assert_eq!(
        apply_unified_diff(original, "@@ -1 @@\n*one\n").unwrap_err(),
        "Unsupported unified diff line prefix '*'"
    );
    // A blank line inside a hunk cannot be split after its first byte.
    assert!(apply_unified_diff_checked(original, "@@ -1 @@\n\n").is_none());
    assert!(apply_unified_diff_checked(original, "@@ -1 @@\néone\n").is_none());
}

#[test]
fn campaign_decisions() {
    assert_eq!(check_baseline(Ok(RunOutcome::Passed)), Ok(()));
    assert_eq!(
        check_baseline(Ok(RunOutcome::CompileFailed("e".to_string()))).unwrap_err(),
        "Baseline compile failed:\ne"
    );
    assert_eq!(
        check_baseline(Ok(RunOutcome::TestsFailed("t".to_string()))).unwrap_err(),
        "Baseline tests failed:\nt"
    );
    assert_eq!(
        check_baseline(Err("x".to_string())).unwrap_err(),
        "Baseline infrastructure error: x"
    );
    let m = mutant("swap", "d");
    assert_eq!(mutant_name(12, &m), "mutant_12_swap");
    let r = record_mutant_outcome(3, &m, Ok(RunOutcome::TestsFailed(String::new()))).unwrap();
    assert_eq!(r.name, "mutant_3_swap");
    assert_eq!(r.diff, "d");
    assert_eq!(r.status, MutantStatus::Caught);
    let r = record_mutant_outcome(0, &m, Ok(RunOutcome::Passed)).unwrap();
    assert_eq!(r.status, MutantStatus::Survived);
    assert_eq!(
        record_mutant_outcome(4, &m, Err("boom".to_string())).unwrap_err(),
        "Infrastructure error while evaluating mutant_4_swap: boom"
    );
}

#[test]
fn report_counts_partition_mutants() {
    let result = |status| MutantResult { name: "n".to_string(), diff: "d".to_string(), status };
    let report = CampaignReport {
        results: vec![
            result(MutantStatus::Caught),
            result(MutantStatus::Survived),
            result(MutantStatus::Caught),
            result(MutantStatus::Survived),
            result(MutantStatus::Survived),
        ],
    };
    assert_eq!(report.total(), 5);
    assert_eq!(report.caught(), 2);
    let survived = report.survived();
    assert_eq!(survived.len(), 3);
    assert!(survived.iter().all(|r| r.status == MutantStatus::Survived));
    assert_eq!(report.caught() + survived.len(), report.total());
}

#[test]
fn process_output_descriptions() {
    assert_eq!(format_process_output(" \n", ""), "no output");
    assert_eq!(format_process_output("out\n", "  "), "stdout:\nout\n");
    assert_eq!(format_process_output("", "err"), "stderr:\nerr");
    assert_eq!(format_process_output("o", "e"), "stdout:\no\nstderr:\ne");
    assert_eq!(compile_outcome(true, "", ""), None);
    assert_eq!(compile_outcome(false, "", "bad"), Some(RunOutcome::CompileFailed("stderr:\nbad".to_string())));
    assert_eq!(test_outcome(true, "x", "y"), RunOutcome::Passed);
    assert_eq!(test_outcome(false, "", ""), RunOutcome::TestsFailed("no output".to_string()));
}

#[test]
fn survivor_verdicts() {
    assert_eq!(survivors_failure(0, false), None);
    assert_eq!(survivors_failure(2, true), None);
    assert_eq!(
        survivors_failure(2, false).unwrap(),
        "Mutation testing failed: 2 mutant(s) survived. Set `allow_survivors = True` on `rust_mutation_test` to opt out temporarily."
    );
}

#[test]
fn runner_arguments() {
    let raw = strings(&[
        "runner", "--rustc", "/bin/rustc", "--params", "p", "--crate-root", "src/lib.rs",
        "--source", "a.rs", "--source", "b.rs", "--input", "i", "--allow-survivors", "--cargo", "c",
        "--rustc", "/other/rustc",
    ]);
    let args = parse_args(&raw).unwrap();
    assert_eq!(args.rustc, "/other/rustc");
    assert_eq!(args.params_file, "p");
    assert_eq!(args.crate_root, "src/lib.rs");
    assert_eq!(args.sources, strings(&["a.rs", "b.rs"]));
    assert_eq!(args.inputs, strings(&["i"]));
    assert_eq!(args.cargo, Some("c".to_string()));
    assert!(args.allow_survivors);
    assert_eq!(args.mutants_config, None);
    // A value may look like a flag.
    let raw = strings(&["runner", "--rustc", "--params", "--params", "p", "--crate-root", "r"]);
    assert_eq!(parse_args(&raw).unwrap().rustc, "--params");
}

#[test]
fn runner_argument_errors() {
    let e = parse_args(&strings(&["runner", "--rustc"])).unwrap_err();
    assert_eq!(e, ArgsError::MissingValue("--rustc".to_string()));
    assert_eq!(e.message(), "Missing value for --rustc");
    let e = parse_args(&strings(&["runner", "--what"])).unwrap_err();
    assert_eq!(e.message(), "Unknown argument: --what");
    let e = parse_args(&strings(&["runner", "--params", "p"])).unwrap_err();
    assert_eq!(e.message(), "--rustc is required");
    let e = parse_args(&strings(&["runner", "--rustc", "r", "--crate-root", "c"])).unwrap_err();
    assert_eq!(e.message(), "--params is required");
    let e = parse_args(&strings(&["runner", "--rustc", "r", "--params", "p"])).unwrap_err();
    assert_eq!(e, ArgsError::MissingRequired("--crate-root".to_string()));
}

#[test]
fn path_lists_and_dedupe() {
    assert_eq!(parse_path_list(" a.rs \n\n./b.rs\n"), strings(&["a.rs", "./b.rs"]));
    assert_eq!(
        dedupe_paths(strings(&["src/lib.rs", "src//lib.rs", "src/./x.rs", "src/x.rs/", "./y", "y"])),
        strings(&["src/lib.rs", "src/./x.rs", "./y", "y"])
    );
    let mut args = rust_mutation::args::parse_args(&strings(&[
        "r", "--rustc", "r", "--params", "p", "--crate-root", "c", "--source", "a.rs",
    ]))
    .unwrap();
    assert_eq!(read_source_paths(&args, Some("b.rs\na.rs\n")).unwrap(), strings(&["a.rs", "b.rs"]));
    args.sources.clear();
    assert_eq!(
        read_source_paths(&args, None).unwrap_err(),
        "No sources provided; pass --source or --sources-file"
    );
    assert_eq!(read_source_paths(&args, Some("x.rs")).unwrap(), strings(&["x.rs"]));
    args.rustc_env_file = Some("direct.env".to_string());
    assert_eq!(rustc_env_file_paths(&args, Some("l1.env\n")), strings(&["direct.env", "l1.env"]));
}

#[test]
fn path_equality_and_resolution() {
    assert!(paths_equal("a/b", "a//b/"));
    assert!(paths_equal("a/./b", "a/b"));
    assert!(!paths_equal("./a", "a"));
    assert!(!paths_equal("/a", "a"));
    assert!(!paths_equal("a/../b", "b"));
    assert!(contains_path(&strings(&["x", "src/lib.rs"]), "src//lib.rs"));
    assert!(!contains_path(&strings(&["x"]), "y"));
    assert_eq!(resolve_against_cwd("/usr/bin/cargo", Some("/w"), "cargo"), "/usr/bin/cargo");
    assert_eq!(resolve_against_cwd("bin/cargo", Some("/w"), "cargo"), "/w/bin/cargo");
    assert_eq!(resolve_against_cwd("bin/cargo", Some("/w/"), "cargo"), "/w/bin/cargo");
    assert_eq!(resolve_against_cwd("bin/cargo", None, "cargo"), "cargo");
    assert_eq!(check_mutation_source(&strings(&["src/lib.rs"]), "src/./lib.rs"), Ok(()));
    assert_eq!(
        check_mutation_source(&strings(&["src/lib.rs"]), "src/x.rs").unwrap_err(),
        "Mutation source src/x.rs was not present in input map"
    );
}

#[test]
fn env_entries() {
    assert_eq!(parse_env_entry("   ", "f", 1, "/w"), Ok(None));
    assert_eq!(
        parse_env_entry(" K=a=${pwd} ", "f", 1, "/w"),
        Ok(Some(("K".to_string(), "a=/w".to_string())))
    );
    assert_eq!(
        parse_env_entry("NOEQUALS", "env/file", 17, "/w").unwrap_err(),
        "Invalid rustc env entry in env/file:17: expected KEY=VALUE"
    );
    assert_eq!(
        parse_env_entry("=v", "f", 3, "/w").unwrap_err(),
        "Invalid rustc env entry in f:3: empty key"
    );
    let files = vec![
        ("a.env".to_string(), "K=1\nJ=2\n".to_string()),
        ("b.env".to_string(), "\nK=3\n".to_string()),
    ];
    assert_eq!(
        load_rustc_env(&files, "/w").unwrap(),
        vec![("K".to_string(), "3".to_string()), ("J".to_string(), "2".to_string())]
    );
    let bad = vec![("a.env".to_string(), "K=1\n\nbroken\n".to_string())];
    assert_eq!(
        load_rustc_env(&bad, "/w").unwrap_err(),
        "Invalid rustc env entry in a.env:3: expected KEY=VALUE"
    );
    assert_eq!(expand_pwd_placeholders("${pwd}/a:${pwd}", "/w"), "/w/a:/w");
    assert_eq!(expand_pwd_placeholders("plain", "/w"), "plain");
}

#[test]
fn writer_helpers() {
    assert_eq!(
        normalize_strip_prefixes(&strings(&[" /a/ ", "/a/b//", "", "  ", "/a", "/c/d"])),
        strings(&["/a/b", "/c/d", "/a"])
    );
    assert_eq!(normalize_strip_prefixes(&strings(&["ab", "é", "xy"])), strings(&["ab", "é", "xy"]));
    assert_eq!(normalize_strip_prefixes(&strings(&["é", "abc"])), strings(&["abc", "é"]));
    assert_eq!(
        strip_execroot_prefixes("--x=/e/b/p:/e/b/q", &strings(&["/e/b"])),
        "--x=p:q"
    );
    assert_eq!(strip_execroot_prefixes("/e/bb/p", &strings(&["/e/b"])), "/e/bb/p");
    assert!(should_drop_arg("--emit=link"));
    assert!(should_drop_arg("--out-dir=x"));
    assert!(!should_drop_arg("--emit"));
    assert_eq!(param_file_path("@a/b.params"), Some("a/b.params".to_string()));
    assert_eq!(param_file_path("a@b"), None);
    assert_eq!(param_file_args(" x \n\ny\n"), strings(&["x", "y"]));
    let argv = strings(&["a", "@f", "b"]);
    let files = vec![None, Some("c\nd\n".to_string()), None];
    assert_eq!(expand_action_args(&argv, &files), strings(&["a", "c", "d", "b"]));
    assert_eq!(read_build_flags(&strings(&["x\n", "", " y \n z"])), strings(&["x", "y", "z"]));
}

#[test]
fn listing_collection_and_mutated_sources() {
    let object = |name: Option<&str>, diff: &str| {
        let mut members = vec![("diff".to_string(), JsonValue::Str(diff.to_string()))];
        if let Some(n) = name {
            members.push(("name".to_string(), JsonValue::Str(n.to_string())));
        }
        JsonValue::Object(members)
    };
    let doc = JsonValue::Object(vec![
        ("mutants".to_string(), JsonValue::Array(vec![object(Some("m1"), "d1"), object(None, "d2")])),
        ("other".to_string(), JsonValue::Number),
    ]);
    let mut out = Vec::new();
    collect_json_mutants_from_value(&doc, &mut out);
    assert_eq!(out.len(), 2);
    assert_eq!(out[0].name, "m1");
    assert_eq!(out[1].name, "cargo-mutants mutant");
    assert_eq!(out[1].diff, "d2");

    let listing = vec![CargoJsonMutant {
        name: "flip".to_string(),
        diff: "@@ -1 +1 @@\n-a\n+b\n".to_string(),
    }];
    let made = mutants_for_source("src/lib.rs", "a\n", &listing).unwrap().unwrap();
    assert_eq!(made[0].source_path, "src/lib.rs");
    assert_eq!(made[0].name, "flip");
    assert_eq!(made[0].mutated_source, "b\n");
    let bad = vec![CargoJsonMutant { name: "bad".to_string(), diff: "nothing".to_string() }];
    assert_eq!(
        mutants_for_source("src/lib.rs", "a\n", &bad).unwrap().unwrap_err(),
        "Failed to apply cargo-mutants diff for src/lib.rs (bad): No unified diff hunks were found"
    );
}

#[test]
fn runner_constants_and_names() {
    assert_eq!(CRATE_ROOT_PLACEHOLDER, "__MUTATION_CRATE_ROOT__");
    assert_eq!(TEMP_DIR_ATTEMPTS, 1000);
    assert_eq!(temp_dir_name(42, 7, 0), "rust_mutant_42_7_0");
    assert_eq!(temp_dir_error("/t/x", "denied"), "Failed to create temp dir /t/x: denied");
    assert_eq!(passthrough_env_vars().len(), 14);
    assert_eq!(passthrough_env_vars()[6], "TZ");
    assert_eq!(tmpdir_env_keys(false), vec!["HOME", "TMPDIR", "TMP", "TEMP"]);
    assert_eq!(tmpdir_env_keys(true).len(), 5);
    assert_eq!(temp_dir_vars(), vec!["TEST_TMPDIR", "TMPDIR", "TMP", "TEMP"]);
}

#[test]
fn json_lines_listing_is_read_line_by_line() {
    let out = "{\"name\":\"a\",\"diff\":\"d1\"}\nnot json\n  {\"genre\":\"G\",\"diff\":\"d2\"}\n";
    let parsed = parse_cargo_mutants_json(out).unwrap();
    assert_eq!(parsed.len(), 2);
    assert_eq!((parsed[0].name.as_str(), parsed[0].diff.as_str()), ("a", "d1"));
    assert_eq!((parsed[1].name.as_str(), parsed[1].diff.as_str()), ("G", "d2"));
}

#[test]
fn blank_listing_and_nested_documents() {
    assert!(parse_cargo_mutants_json("  \n\t ").unwrap().is_empty());
    let nested = r#"{"z":{"diff":"inner","name":"n2"},"a":[{"diff":"first"}],"diff":"top"}"#;
    let parsed = parse_cargo_mutants_json(nested).unwrap();
    let names: Vec<&str> = parsed.iter().map(|m| m.name.as_str()).collect();
    let diffs: Vec<&str> = parsed.iter().map(|m| m.diff.as_str()).collect();
    assert_eq!(names, vec!["cargo-mutants mutant", "cargo-mutants mutant", "n2"]);
    assert_eq!(diffs, vec!["top", "first", "inner"]);
    assert!(parse_cargo_mutants_json("{\"diff\": 3}").unwrap().is_empty());
}

#[test]
fn listing_documents_given_directly() {
    assert_eq!(listing_text("  [1]\n"), "[1]");
    assert_eq!(listing_line_texts(" a \n\n b"), vec!["a".to_string(), "b".to_string()]);
    let doc = JsonValue::Object(vec![("diff".to_string(), JsonValue::Str("d".to_string()))]);
    let got = mutants_from_documents("x", None, vec![None, Some(doc)]).unwrap();
    assert_eq!(got[0].name, "cargo-mutants mutant");
    assert_eq!(
        mutants_from_documents("x\ny", None, vec![None, None]).unwrap_err(),
        "Failed to parse cargo-mutants JSON output"
    );
    assert!(mutants_from_documents(" ", None, vec![]).unwrap().is_empty());
}

#[test]
fn temp_dir_attempts_are_decided() {
    assert!(matches!(next_temp_dir_step(0, "/t/a", TempDirEvent::Created), TempDirStep::Use));
    assert!(matches!(next_temp_dir_step(998, "/t/a", TempDirEvent::AlreadyExists), TempDirStep::Retry));
    match next_temp_dir_step(999, "/t/a", TempDirEvent::AlreadyExists) {
        TempDirStep::Fail(m) => assert_eq!(m, "Failed to allocate unique temp dir after 1000 attempts"),
        other => panic!("unexpected {:?}", other),
    }
    match next_temp_dir_step(3, "/t/a", TempDirEvent::Failed("denied".to_string())) {
        TempDirStep::Fail(m) => assert_eq!(m, "Failed to create temp dir /t/a: denied"),
        other => panic!("unexpected {:?}", other),
    }
}

#[test]
fn listing_runs_give_mutants_or_errors() {
    let failed = mutants_from_listing_run("src/lib.rs", "a\n", false, "", "boom\n").unwrap();
    assert_eq!(
        failed.unwrap_err(),
        "cargo-mutants --Zmutate-file failed for src/lib.rs:\nstderr:\nboom\n"
    );
    let listing = r#"[{"name":"flip","diff":"@@ -1 +1 @@\n-a\n+b\n"}]"#;
    let made = mutants_from_listing_run("src/lib.rs", "a\n", true, listing, "").unwrap().unwrap();
    assert_eq!(made.len(), 1);
    assert_eq!(made[0].mutated_source, "b\n");
    assert_eq!(made[0].diff, "@@ -1 +1 @@\n-a\n+b\n");
    let garbage = mutants_from_listing_run("src/lib.rs", "a\n", true, "oops", "").unwrap();
    assert_eq!(garbage.unwrap_err(), "Failed to parse cargo-mutants JSON output");
    assert!(mutants_from_listing_run("src/lib.rs", "a\n", true, "", "").unwrap().unwrap().is_empty());
}

#[test]
fn path_order_matches_std() {
    let samples = [
        "", ".", "..", "/", "a", "A", "b", "z", "\u{e9}", "-x", ".hidden", "a.b", "a-b", "a/b", "a//b",
        "a/./b", "a/", "a/..", "a/b/c", "./a", "../a", "/a", "//a", "/a/b", "./", "src/lib.rs",
        "src/lib/mod.rs", "src/lib-x.rs",
    ];
    for x in samples {
        for y in samples {
            assert_eq!(
                path_less(x, y),
                std::path::Path::new(x) < std::path::Path::new(y),
                "{:?} < {:?}",
                x,
                y
            );
            assert_eq!(
                paths_equal(x, y),
                std::path::Path::new(x) == std::path::Path::new(y),
                "{:?} == {:?}",
                x,
                y
            );
        }
    }
}

#[test]
fn source_paths_are_sorted_as_std_sorts_paths() {
    let given = strings(&["src/z.rs", "src/a/b.rs", "src/a.rs", "./src/m.rs", "src/lib.rs", "/abs/x.rs", "src/a-b.rs"]);
    let mut expected = given.clone();
    expected.sort_by(|a, b| std::path::Path::new(a).cmp(std::path::Path::new(b)));
    assert_eq!(sort_paths(&given), expected);
    assert_eq!(
        sort_paths(&strings(&["b", "a/b", "a"])),
        strings(&["a", "a/b", "b"])
    );
    assert!(sort_paths(&Vec::new()).is_empty());
}

#[test]
fn report_text_lists_verdicts_and_survivors() {
    let report = CampaignReport {
        results: vec![
            MutantResult {
                name: "mutant_0_flip".to_string(),
                diff: "@@ -1 +1 @@\n-a\n+b\n".to_string(),
                status: MutantStatus::Caught,
            },
            MutantResult {
                name: "mutant_1_swap".to_string(),
                diff: "@@ -2 +2 @@\r\n-c\n+d".to_string(),
                status: MutantStatus::Survived,
            },
        ],
    };
    assert_eq!(
        report.report_lines(),
        vec![
            "Generated 2 mutants".to_string(),
            "  mutant_0_flip - CAUGHT".to_string(),
            "  mutant_1_swap - SURVIVED".to_string(),
        ]
    );
    assert_eq!(
        report.survivor_lines(),
        vec![
            "".to_string(),
            "Survived mutations (test gaps):".to_string(),
            "  - mutant_1_swap".to_string(),
            "    @@ -2 +2 @@".to_string(),
            "    -c".to_string(),
            "    +d".to_string(),
            "".to_string(),
        ]
    );
    let quiet = CampaignReport { results: vec![] };
    assert_eq!(quiet.report_lines(), vec!["Generated 0 mutants".to_string()]);
    assert!(quiet.survivor_lines().is_empty());
}

#[test]
fn later_env_entries_override_earlier_ones() {
    let files = vec![
        ("a.env".to_string(), "K=1\nOTHER=x\n".to_string()),
        ("b.env".to_string(), "\nK=2\nK=${pwd}/3\n".to_string()),
    ];
    let env = load_rustc_env(&files, "/w").unwrap();
    assert_eq!(
        env,
        vec![("K".to_string(), "/w/3".to_string()), ("OTHER".to_string(), "x".to_string())]
    );
}

#[test]
fn resolution_joins_as_std_joins_paths() {
    for cwd in ["/w", "/w/", "", "rel", "/"] {
        for path in ["bin/cargo", "/abs/cargo", "", "./x", "../y", "a//b"] {
            let expected = std::path::Path::new(cwd).join(path).display().to_string();
            let got = resolve_against_cwd(path, Some(cwd), "fallback");
            if path.starts_with('/') {
                assert_eq!(got, path);
            } else {
                assert_eq!(got, expected, "{:?} joined to {:?}", path, cwd);
            }
        }
    }
    assert_eq!(resolve_against_cwd("bin/cargo", None, "cargo"), "cargo");
}

#[test]
fn parents_are_those_of_std_paths() {
    let samples = [
        "", ".", "..", "/", "//", "a", "a/", "a//", "a/b", "a//b", "a/./b", "a/b/.", "a/b/./", "./a",
        "./", "./.", "../a", "a/..", "/a", "//a", "/a/b/", "src/lib.rs", "src/./lib.rs", ".hidden/x",
        "./a/b", "a/../b", "/.", "/./a",
    ];
    for s in samples {
        let expected = std::path::Path::new(s).parent().map(|p| p.display().to_string());
        assert_eq!(parent_path(s), expected, "parent of {:?}", s);
    }
}

#[test]
fn mutant_build_layout() {
    let (output, root, manifest) = build_layout("/tmp/m_1", "pkg/src/lib.rs");
    assert_eq!(output, "/tmp/m_1/test_binary");
    assert_eq!(root, "/tmp/m_1/pkg/src/lib.rs");
    assert_eq!(manifest, "/tmp/m_1/pkg/src");
    let (_, root, manifest) = build_layout("/tmp/m_2/", "lib.rs");
    assert_eq!(root, "/tmp/m_2/lib.rs");
    assert_eq!(manifest, std::path::Path::new("/tmp/m_2/").join("").display().to_string());
    let (_, _, manifest) = build_layout("/tmp/m_3", "/");
    assert_eq!(manifest, "/tmp/m_3");
    assert_eq!(join_path("a", "b"), "a/b");
    assert_eq!(join_path("a", "/b"), "/b");
}
