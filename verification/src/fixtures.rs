//! The small crates that the runner's own end-to-end checks mutate: each
//! exercises one feature of a mutation run (compile data, rustc environment,
//! several source files, a failing baseline, surviving mutants, ...).
pub mod basic;
pub mod compile_data;
pub mod failing_baseline;
pub mod hermetic_env;
pub mod multifile;
pub mod proc_macro_cfg_user;
pub mod runtime_data;
pub mod rustc_env;
pub mod rustc_env_files;
pub mod survivor;
