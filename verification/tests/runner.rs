use rust_mutation::args::Args;
use rust_mutation::campaign::{run_mutation_campaign, FileMutant, MutantStatus, RunOutcome};
use rust_mutation::cargo_mutants::parse_cargo_mutants_json;
use rust_mutation::config::{load_rustc_env, load_rustc_params, read_input_paths, render_compile_params};
use rust_mutation::diff::apply_unified_diff;

fn make_args() -> Args {
    Args {
        rustc: "rustc".to_string(),
        params_file: "params".to_string(),
        crate_root: "src/lib.rs".to_string(),
        sources_file: None,
        sources: Vec::new(),
        inputs_file: None,
        inputs: Vec::new(),
        rustc_env_file: None,
        rustc_env_files_list: None,
        cargo: None,
        cargo_mutants: None,
        mutants_config: None,
        allow_survivors: false,
    }
}

fn sample_file_mutant(source_path: &str) -> FileMutant {
    FileMutant {
        source_path: source_path.to_string(),
        name: "replace > with <=".to_string(),
        mutated_source: "fn f(x: i32) -> bool { x <= 0 }\n".to_string(),
        diff: "@@ -1,1 +1,1 @@\n-fn f(x: i32) -> bool { x > 0 }\n+fn f(x: i32) -> bool { x <= 0 }\n"
            .to_string(),
    }
}


#[test]
fn read_input_paths_defaults_to_source_paths() {
    let mut args = make_args();
    let source_paths = vec!["src/lib.rs".to_string(), "src/math.rs".to_string()];
    args.sources = source_paths.clone();

    let input_paths = read_input_paths(&args, None, &source_paths);
    assert_eq!(input_paths, source_paths);
}

#[test]
fn load_rustc_env_reads_files_and_expands_pwd() {
    let cwd = "/work/dir";
    let files = vec![
        (
            "direct.env".to_string(),
            "RUSTC_DIRECT=from_direct\nPWD_VALUE=${pwd}/x\n".to_string(),
        ),
        ("from_list.env".to_string(), "RUSTC_FROM_LIST=from_list\n".to_string()),
    ];

    let rustc_env = load_rustc_env(&files, cwd).expect("rustc env should load");
    let get = |key: &str| rustc_env.iter().find(|(k, _)| k == key).map(|(_, v)| v.clone());
    assert_eq!(get("RUSTC_DIRECT"), Some("from_direct".to_string()));
    assert_eq!(get("RUSTC_FROM_LIST"), Some("from_list".to_string()));
    assert_eq!(get("PWD_VALUE"), Some(format!("{}/x", cwd)));
}

#[test]
fn load_rustc_params_expands_pwd_placeholders() {
    let cwd = "/work/dir";
    let params = load_rustc_params(
        "__MUTATION_CRATE_ROOT__\n--cfg=test\n-Ldependency=${pwd}/external/dep\n",
        cwd,
    );
    assert_eq!(params[0], "__MUTATION_CRATE_ROOT__");
    assert_eq!(params[1], "--cfg=test");
    assert_eq!(params[2], format!("-Ldependency={}/external/dep", cwd));
}

#[test]
fn render_compile_params_substitutes_crate_root_placeholder() {
    let params = vec![
        "__MUTATION_CRATE_ROOT__".to_owned(),
        "--crate-name=my_crate".to_owned(),
    ];
    let rendered = render_compile_params(&params, "/tmp/mutated/src/lib.rs");
    assert_eq!(rendered[0], "/tmp/mutated/src/lib.rs");
    assert_eq!(rendered[1], "--crate-name=my_crate");
}

#[test]
fn apply_unified_diff_replaces_content() {
    let original = "fn f(x: i32) -> bool { x > 0 }\n";
    let diff = "--- a\n+++ b\n@@ -1,1 +1,1 @@\n-fn f(x: i32) -> bool { x > 0 }\n+fn f(x: i32) -> bool { x <= 0 }\n";
    let mutated = apply_unified_diff(original, diff).expect("diff should apply");
    assert_eq!(mutated, "fn f(x: i32) -> bool { x <= 0 }\n");
}

#[test]
fn parse_cargo_mutants_json_finds_mutants_array() {
    let payload = r#"[
            {"name":"replace > with <=","diff":"@@ -1,1 +1,1 @@\n-a\n+b\n"}
        ]"#;
    let parsed = parse_cargo_mutants_json(payload).expect("json should parse");
    assert_eq!(parsed.len(), 1);
    assert_eq!(parsed[0].name, "replace > with <=");
}

#[test]
fn parse_cargo_mutants_json_accepts_entries_without_name() {
    let payload = r#"[
            {"genre":"FnValue","diff":"@@ -1,1 +1,1 @@\n-a\n+b\n"}
        ]"#;
    let parsed = parse_cargo_mutants_json(payload).expect("json should parse");
    assert_eq!(parsed.len(), 1);
    assert_eq!(parsed[0].name, "FnValue");
}

#[test]
fn parse_cargo_mutants_json_accepts_empty_mutant_list() {
    let parsed = parse_cargo_mutants_json("[]").expect("empty mutant list should parse");
    assert!(parsed.is_empty());
}

#[test]
fn parse_cargo_mutants_json_rejects_non_json_output() {
    let err = parse_cargo_mutants_json("not-json").expect_err("non-json output should be rejected");
    assert!(err.contains("Failed to parse cargo-mutants JSON output"));
}

#[test]
fn baseline_compile_failure_causes_campaign_failure() {
    let file_mutants = vec![sample_file_mutant("src/lib.rs")];
    let result = run_mutation_campaign(&file_mutants, |_| {
        Ok(RunOutcome::CompileFailed("compile error".to_string()))
    });
    let err = result.expect_err("campaign should fail on baseline compile failure");
    assert!(err.contains("Baseline compile failed"));
}

#[test]
fn baseline_test_failure_causes_campaign_failure() {
    let file_mutants = vec![sample_file_mutant("src/lib.rs")];
    let result = run_mutation_campaign(&file_mutants, |_| {
        Ok(RunOutcome::TestsFailed("test error".to_string()))
    });
    let err = result.expect_err("campaign should fail on baseline test failure");
    assert!(err.contains("Baseline tests failed"));
}

#[test]
fn mutant_compile_failure_is_counted_as_caught() {
    let file_mutants = vec![sample_file_mutant("src/lib.rs")];
    let mut outcomes = vec![
        Ok(RunOutcome::Passed),
        Ok(RunOutcome::CompileFailed("compile error".to_string())),
    ]
    .into_iter();

    let report = run_mutation_campaign(&file_mutants, |_| {
        outcomes.next().expect("expected outcome")
    })
    .expect("campaign should succeed");

    assert_eq!(report.total(), 1);
    assert_eq!(report.caught(), 1);
    assert_eq!(report.results[0].status, MutantStatus::Caught);
}

#[test]
fn mutant_pass_is_counted_as_survived() {
    let file_mutants = vec![sample_file_mutant("src/lib.rs")];
    let mut outcomes = vec![Ok(RunOutcome::Passed), Ok(RunOutcome::Passed)].into_iter();

    let report = run_mutation_campaign(&file_mutants, |_| {
        outcomes.next().expect("expected outcome")
    })
    .expect("campaign should succeed");

    assert_eq!(report.total(), 1);
    assert_eq!(report.caught(), 0);
    assert_eq!(report.results[0].status, MutantStatus::Survived);
}

#[test]
fn baseline_infrastructure_error_causes_campaign_failure() {
    let file_mutants = vec![sample_file_mutant("src/lib.rs")];
    let result = run_mutation_campaign(&file_mutants, |_| Err("spawn failure".to_string()));
    let err = result.expect_err("campaign should fail on baseline infrastructure errors");
    assert!(err.contains("Baseline infrastructure error"));
}

#[test]
fn infrastructure_error_causes_campaign_failure() {
    let file_mutants = vec![sample_file_mutant("src/lib.rs")];
    let mut outcomes = vec![Ok(RunOutcome::Passed), Err("io failure".to_string())].into_iter();

    let result = run_mutation_campaign(&file_mutants, |_| {
        outcomes.next().expect("expected outcome")
    });
    let err = result.expect_err("campaign should fail on infrastructure errors");
    assert!(err.contains("Infrastructure error while evaluating"));
}
