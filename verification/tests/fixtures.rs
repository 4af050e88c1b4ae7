use rust_mutation::fixtures::{
    basic, compile_data, failing_baseline, hermetic_env, multifile, proc_macro_cfg_user, runtime_data,
    rustc_env, rustc_env_files, survivor,
};

#[test]
fn compile_data_is_available() {
    // The data file compiled into the crate holds "hello" and a newline.
    assert!(compile_data::has_expected_message_len("hello\n"));
}

#[test]
fn compile_env_does_not_leak() {
    assert!(hermetic_env::compile_time_env_is_scrubbed(None));
}

#[test]
fn runtime_env_does_not_leak() {
    assert!(hermetic_env::runtime_env_is_scrubbed(None));
}

#[test]
fn basic_logic_still_runs() {
    assert!(hermetic_env::is_nonzero(1));
    assert!(!hermetic_env::is_nonzero(0));
}

#[test]
fn test_add() {
    assert_eq!(basic::add(2, 3), 5);
    assert_eq!(basic::add(0, 0), 0);
    assert_eq!(basic::add(-1, 1), 0);
}

#[test]
fn test_is_positive() {
    assert_eq!(basic::is_positive(1), true);
    assert_eq!(basic::is_positive(-1), false);
    assert_eq!(basic::is_positive(0), false);
}

#[test]
fn test_add_if_positive() {
    assert_eq!(multifile::add_if_positive(2, 3), 5);
    assert_eq!(multifile::add_if_positive(-2, 3), -2);
}

#[test]
fn lib_test_is_positive() {
    assert_eq!(multifile::is_positive(1), true);
    assert_eq!(multifile::is_positive(-1), false);
    assert_eq!(multifile::is_positive(0), false);
}

#[test]
fn proc_macro_generated_code_respects_cfg() {
    // This build does not set `mutation_proc_macro_enabled`.
    let expected = "disabled";
    assert_eq!(proc_macro_cfg_user::generated_cfg_value(false), expected);
}

#[test]
fn lib_basic_logic_still_runs() {
    assert!(proc_macro_cfg_user::is_nonzero(1));
    assert!(!proc_macro_cfg_user::is_nonzero(0));
}

#[test]
fn runtime_data_basic_logic_still_runs() {
    assert_eq!(runtime_data::increment(1), 2);
}

#[test]
fn rustc_env_is_available() {
    assert!(rustc_env::has_expected_token("ok"));
}

#[test]
fn rustc_env_file_is_available() {
    assert!(rustc_env_files::has_expected_token("ok_from_file"));
}

#[test]
fn add_is_tested() {
    assert_eq!(survivor::add(2, 3), 5);
    assert_eq!(survivor::add(-1, 1), 0);
}

#[test]
fn failing_baseline_add_sums() {
    assert_eq!(failing_baseline::add(2, 2), 4);
}

#[test]
fn fixtures_edge_values() {
    assert!(!compile_data::has_expected_message_len("hello world"));
    assert!(compile_data::has_expected_message_len("  hello \t\n"));
    assert!(!rustc_env::has_expected_token("ok_from_file"));
    assert!(!rustc_env_files::has_expected_token("ok"));
    assert_eq!(proc_macro_cfg_user::generated_cfg_value(true), "enabled");
    assert!(!hermetic_env::compile_time_env_is_scrubbed(Some("1")));
    assert!(!hermetic_env::runtime_env_is_scrubbed(Some("1".to_string())));
    assert_eq!(survivor::call_untested(7), 1);
    assert_eq!(survivor::call_untested(-7), -1);
    assert_eq!(survivor::call_untested(0), 0);
    assert_eq!(multifile::math::add(i32::MAX - 1, 1), i32::MAX);
}
