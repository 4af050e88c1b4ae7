use rust_mutation::params_writer::{build_runtime_params, parse_writer_args, Options, WriterArgsError};

fn strings(items: &[&str]) -> Vec<String> {
    items.iter().map(|s| s.to_string()).collect()
}

#[test]
fn build_runtime_params_replaces_crate_root_and_drops_output_flags() {
    let options = Options {
        output: "unused".to_owned(),
        crate_root_placeholder: "__ROOT__".to_owned(),
        strip_prefixes: vec!["/execroot/bazel-out/k8-fastbuild/bin".to_owned()],
        build_flags_files: vec![],
        action_argv: vec![
            "/execroot/bazel-out/k8-fastbuild/bin/pkg/src/lib.rs".to_owned(),
            "--crate-name=my_crate".to_owned(),
            "--emit=link=/execroot/bazel-out/k8-fastbuild/bin/pkg/out".to_owned(),
            "--out-dir=/execroot/bazel-out/k8-fastbuild/bin/pkg/out-dir".to_owned(),
            "--extern=dep=/execroot/bazel-out/k8-fastbuild/bin/external/dep/libdep.rlib".to_owned(),
            "--cfg=test".to_owned(),
        ],
    };

    let no_param_files = vec![None; options.action_argv.len()];
    let args = build_runtime_params(&options, &no_param_files, &vec![]).expect("params should build");
    assert_eq!(args[0], "__ROOT__");
    assert!(args.iter().any(|arg| arg == "--crate-name=my_crate"));
    assert!(args
        .iter()
        .any(|arg| arg == "--extern=dep=external/dep/libdep.rlib"));
    assert!(args.iter().any(|arg| arg == "--cfg=test"));
    assert!(!args.iter().any(|arg| arg.starts_with("--emit=")));
    assert!(!args.iter().any(|arg| arg.starts_with("--out-dir=")));
}

#[test]
fn build_runtime_params_expands_param_files_and_appends_build_flags() {
    let params_content = "--cfg=from_params
--extern=dep=/execroot/bazel-out/k8-fastbuild/bin/external/dep/libdep.rlib
";
    let build_flags_content = "--cfg=from_build_script
";
    let options = Options {
        output: "unused".to_owned(),
        crate_root_placeholder: "__ROOT__".to_owned(),
        strip_prefixes: vec!["/execroot/bazel-out/k8-fastbuild/bin".to_owned()],
        build_flags_files: vec!["build.flags".to_owned()],
        action_argv: vec![
            "/execroot/bazel-out/k8-fastbuild/bin/pkg/src/lib.rs".to_owned(),
            "@action.params".to_owned(),
            "--cfg=from_action".to_owned(),
        ],
    };
    let param_files = vec![None, Some(params_content.to_owned()), None];
    let flag_contents = vec![build_flags_content.to_owned()];

    let args = build_runtime_params(&options, &param_files, &flag_contents).expect("params should build");
    assert_eq!(
        args,
        vec![
            "__ROOT__".to_owned(),
            "--cfg=from_params".to_owned(),
            "--extern=dep=external/dep/libdep.rlib".to_owned(),
            "--cfg=from_action".to_owned(),
            "--cfg=from_build_script".to_owned(),
        ],
    );
}

#[test]
fn build_runtime_params_errors_without_positional_root() {
    let options = Options {
        output: "unused".to_owned(),
        crate_root_placeholder: "__ROOT__".to_owned(),
        strip_prefixes: vec![],
        build_flags_files: vec![],
        action_argv: vec!["--crate-name=my_crate".to_owned()],
    };

    let err = build_runtime_params(&options, &vec![None], &vec![])
        .expect_err("should fail without crate root arg");
    assert!(err.contains("crate root positional"));
}

#[test]
fn parse_writer_args_splits_at_marker() {
    let raw = strings(&[
        "writer",
        "--output=out.params",
        "--crate-root-placeholder=__ROOT__",
        "--strip-prefix=/a",
        "--strip-prefix=/b",
        "--build-flags-file=f1",
        "--",
        "src/lib.rs",
        "--cfg=x",
    ]);
    let options = parse_writer_args(&raw).expect("arguments should parse");
    assert_eq!(options.output, "out.params");
    assert_eq!(options.crate_root_placeholder, "__ROOT__");
    assert_eq!(options.strip_prefixes, strings(&["/a", "/b"]));
    assert_eq!(options.build_flags_files, strings(&["f1"]));
    assert_eq!(options.action_argv, strings(&["src/lib.rs", "--cfg=x"]));
}

#[test]
fn parse_writer_args_errors() {
    assert_eq!(
        parse_writer_args(&strings(&["writer", "--output=o"])).unwrap_err(),
        WriterArgsError::MissingSplitMarker
    );
    assert_eq!(
        parse_writer_args(&strings(&["writer", "--bogus", "--"])).unwrap_err(),
        WriterArgsError::UnknownArgument("--bogus".to_owned())
    );
    assert_eq!(
        parse_writer_args(&strings(&["writer", "--crate-root-placeholder=R", "--"])).unwrap_err(),
        WriterArgsError::MissingOutput
    );
    assert_eq!(
        parse_writer_args(&strings(&["writer", "--output=o", "--"])).unwrap_err(),
        WriterArgsError::MissingPlaceholder
    );
}
