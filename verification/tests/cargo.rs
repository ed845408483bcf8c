//! The cargo subcommand: arguments, targets, packages, steps and compiler calls.

use pinvio::cargo_pinvio::args::{
    any_arg_flag, find_dashes, get_arg_flag_value, get_first_arg_with_rs_suffix, slice_of,
};
use pinvio::cargo_pinvio::encoding::{decode_args, encode_args, DecodeError};
use pinvio::cargo_pinvio::package::{
    cargo_package, probe, Component, PackageError, PackageQuery, PathParts, Probe,
};
use pinvio::cargo_pinvio::plan::{
    after_step, analysis_args, cargo_check_args, cargo_clean_args, failure, first_action,
    into_cargo_pinvio, mode, needs_host, pinvio_args, running_line, Action, Mode, Outcome, Step,
    TIMEOUT_SECS,
};
use pinvio::cargo_pinvio::rustc_call::{
    after_call, analyser_args, compiler_args, exit_code, extended_args, first_call,
    into_cargo_rustc, is_crate_type_lib, plan_call, source_file, CallAction, Command, RustcPlan,
};
use pinvio::cargo_pinvio::target::{sort_targets, CargoKind, CargoTarget, TargetKind};

fn args(list: &[&str]) -> Vec<String> {
    list.iter().map(|s| s.to_string()).collect()
}

fn target(name: &str, kinds: Vec<CargoKind>) -> CargoTarget {
    CargoTarget { name: name.to_string(), kinds }
}

fn path(parts: &[&str]) -> PathParts {
    let mut all = vec![Component::RootDir];
    for part in parts {
        all.push(Component::Normal(part.as_bytes().to_vec()));
    }
    PathParts { parts: all }
}

#[test]
fn flag_value_after_the_flag() {
    let a = args(&["x", "--target", "t1", "--target", "t2"]);
    assert_eq!(get_arg_flag_value(&a, "--target"), Some("t1".to_string()));
}

#[test]
fn flag_value_behind_equals() {
    let a = args(&["x", "--target=t1=a"]);
    assert_eq!(get_arg_flag_value(&a, "--target"), Some("t1=a".to_string()));
    assert_eq!(get_arg_flag_value(&args(&["--target="]), "--target"), Some(String::new()));
}

#[test]
fn flag_value_skips_longer_flags() {
    let a = args(&["--target-dir", "d", "--target", "t"]);
    assert_eq!(get_arg_flag_value(&a, "--target"), Some("t".to_string()));
}

#[test]
fn flag_value_stops_at_dashes() {
    assert_eq!(get_arg_flag_value(&args(&["x", "--", "--target", "t"]), "--target"), None);
    assert_eq!(get_arg_flag_value(&args(&["--target", "--", "t"]), "--target"), None);
    assert_eq!(get_arg_flag_value(&args(&["--target"]), "--target"), None);
    assert_eq!(get_arg_flag_value(&args(&[]), "--target"), None);
}

#[test]
fn dashes_split_the_arguments() {
    let a = args(&["a", "--", "b", "--", "c"]);
    let at = find_dashes(&a, 0);
    assert_eq!(at, 1);
    assert_eq!(slice_of(&a, 0, at), args(&["a"]));
    assert_eq!(slice_of(&a, at + 1, a.len()), args(&["b", "--", "c"]));
    assert_eq!(find_dashes(&a, 2), 3);
    assert_eq!(find_dashes(&a, 4), 5);
}

#[test]
fn any_flag_looks_at_all_values() {
    let a = args(&["--crate-type", "bin", "--crate-type=rlib"]);
    assert!(any_arg_flag(&a, "--crate-type", |v: &str| v == "rlib"));
    assert!(any_arg_flag(&a, "--crate-type", |v: &str| v == "bin"));
    assert!(!any_arg_flag(&a, "--crate-type", |v: &str| v == "lib"));
}

#[test]
fn any_flag_gives_up_at_a_longer_flag() {
    let a = args(&["--crate-types", "--crate-type", "lib"]);
    assert!(!any_arg_flag(&a, "--crate-type", |_: &str| true));
    // The value of a flag passes over such an argument.
    assert_eq!(get_arg_flag_value(&a, "--crate-type"), Some("lib".to_string()));
}

#[test]
fn any_flag_without_value() {
    assert!(!any_arg_flag(&args(&["--crate-type"]), "--crate-type", |_: &str| true));
    assert!(!any_arg_flag(&args(&["--", "--crate-type=lib"]), "--crate-type", |_: &str| true));
}

#[test]
fn first_flag_value_is_the_first_of_all() {
    let a = args(&["--edition", "--e=1", "--e", "2"]);
    assert_eq!(get_arg_flag_value(&a, "--e"), Some("1".to_string()));
}

#[test]
fn first_rust_file() {
    let a = args(&["rustc", "src/lib.rs", "other.rs"]);
    assert_eq!(get_first_arg_with_rs_suffix(&a), Some("src/lib.rs".to_string()));
    assert_eq!(get_first_arg_with_rs_suffix(&args(&["a", "--", "b.rs"])), None);
}

#[test]
fn json_round_trip() {
    let a = args(&["-Zx", "with \"quotes\" and \\", "", "—", "line\nbreak"]);
    let text = encode_args(&a);
    assert_eq!(decode_args(&text), Ok(a));
    assert_eq!(encode_args(&args(&["a", "b\""])), "[\"a\",\"b\\\"\"]");
    assert_eq!(encode_args(&args(&[])), "[]");
}

#[test]
fn json_errors() {
    assert_eq!(decode_args("not json"), Err(DecodeError));
    assert_eq!(decode_args("[1]"), Err(DecodeError));
    assert_eq!(decode_args(" [ \"a\" ] "), Ok(args(&["a"])));
}

#[test]
fn library_kinds() {
    for kind in [CargoKind::Lib, CargoKind::RLib, CargoKind::StaticLib] {
        assert_eq!(TargetKind::from(&target("t", vec![kind])), TargetKind::Library);
    }
    let unknown = CargoKind::Unknown("lib".to_string());
    assert_eq!(TargetKind::from(&target("t", vec![unknown])), TargetKind::Library);
    let both = vec![CargoKind::Bin, CargoKind::RLib];
    assert_eq!(TargetKind::from(&target("t", both)), TargetKind::Library);
}

#[test]
fn executables_and_others() {
    assert_eq!(TargetKind::from(&target("t", vec![CargoKind::Bin])), TargetKind::Bin);
    let second = vec![CargoKind::Example, CargoKind::Bin];
    assert_eq!(TargetKind::from(&target("t", second)), TargetKind::Unknown);
    assert_eq!(TargetKind::from(&target("t", vec![])), TargetKind::Unknown);
    for kind in [
        CargoKind::Bench,
        CargoKind::CustomBuild,
        CargoKind::CDyLib,
        CargoKind::DyLib,
        CargoKind::Example,
        CargoKind::ProcMacro,
        CargoKind::Test,
        CargoKind::Unknown("bin".to_string()),
    ] {
        assert_eq!(TargetKind::from(&target("t", vec![kind])), TargetKind::Unknown);
    }
}

#[test]
fn library_names() {
    assert!(TargetKind::is_lib_str("lib"));
    assert!(TargetKind::is_lib_str("rlib"));
    assert!(TargetKind::is_lib_str("staticlib"));
    assert!(!TargetKind::is_lib_str("cdylib"));
    assert!(!TargetKind::is_lib_str(""));
}

#[test]
fn kind_labels() {
    assert_eq!(TargetKind::Library.label(), "lib");
    assert_eq!(TargetKind::Bin.label(), "bin");
    assert_eq!(TargetKind::Unknown.label(), "unknown");
}

fn mixed_targets() -> Vec<CargoTarget> {
    vec![
        target("test", vec![CargoKind::Test]),
        target("b1", vec![CargoKind::Bin]),
        target("l1", vec![CargoKind::Lib]),
        target("b2", vec![CargoKind::Bin]),
        target("build", vec![CargoKind::CustomBuild]),
        target("l2", vec![CargoKind::StaticLib]),
    ]
}

#[test]
fn libraries_are_checked_first() {
    assert_eq!(sort_targets(&mixed_targets()), vec![2, 5, 1, 3, 0, 4]);
}

#[test]
fn steps_of_a_package() {
    assert_eq!(
        into_cargo_pinvio(&mixed_targets()),
        vec![
            Step::Clean(2),
            Step::Check(2),
            Step::Clean(5),
            Step::Check(5),
            Step::Check(1),
            Step::Check(3),
            Step::Skip(0),
            Step::Skip(4),
        ]
    );
    assert_eq!(into_cargo_pinvio(&vec![]), vec![]);
}

#[test]
fn modes() {
    assert_eq!(mode("pinvio"), Mode::Pinvio);
    assert_eq!(mode("cargo-pinvio"), Mode::Pinvio);
    assert_eq!(mode("/usr/bin/rustc"), Mode::Rustc);
    assert_eq!(mode("rustc-x"), Mode::Unsupported);
    assert_eq!(mode(""), Mode::Unsupported);
}

#[test]
fn outcomes() {
    assert_eq!(failure(Outcome::Skipped), None);
    assert_eq!(failure(Outcome::Cleaned { success: true }), None);
    assert_eq!(failure(Outcome::Cleaned { success: false }), Some("cargo clean failed"));
    assert_eq!(failure(Outcome::Exited { success: true }), None);
    assert_eq!(
        failure(Outcome::Exited { success: false }),
        Some("Finished with non-zero exit code")
    );
    assert_eq!(failure(Outcome::TimedOut), Some("Killed due to timeout"));
    assert_eq!(TIMEOUT_SECS, 60);
}

#[test]
fn check_of_a_library() {
    let a = args(&["cargo-pinvio", "pinvio", "--release", "--", "-Zpinvio"]);
    assert!(needs_host(&a));
    assert_eq!(
        cargo_check_args(TargetKind::Library, "l", &a, Some("host")),
        args(&["check", "--lib", "--release", "--target", "host"])
    );
    assert_eq!(analysis_args(&a), args(&["-Zpinvio"]));
    assert_eq!(pinvio_args(&a), "[\"-Zpinvio\"]");
}

#[test]
fn check_of_an_executable_for_a_given_triple() {
    let a = args(&["cargo-pinvio", "pinvio", "--target=t"]);
    assert!(!needs_host(&a));
    assert_eq!(
        cargo_check_args(TargetKind::Bin, "b", &a, None),
        args(&["check", "--bin", "b", "--target=t"])
    );
    assert_eq!(analysis_args(&a), args(&[]));
    assert_eq!(pinvio_args(&a), "[]");
}

#[test]
fn check_without_own_arguments() {
    let a = args(&["cargo-pinvio"]);
    assert_eq!(
        cargo_check_args(TargetKind::Bin, "b", &a, Some("h")),
        args(&["check", "--bin", "b", "--target", "h"])
    );
    assert_eq!(analysis_args(&a), args(&[]));
}

#[test]
fn clean_of_a_package() {
    assert_eq!(cargo_clean_args("p", "h"), args(&["clean", "-p", "p", "--target", "h"]));
}

#[test]
fn announcement_of_a_target() {
    assert_eq!(running_line(TargetKind::Bin, "b"), "==> Running pinvio for target bin:b");
}

#[test]
fn package_by_manifest() {
    let manifests = vec![path(&["a", "Cargo.toml"]), path(&["b", "Cargo.toml"])];
    let query = PackageQuery::Manifest(path(&["b", "Cargo.toml"]));
    assert_eq!(cargo_package(&manifests, &query), Ok(1));
    let query = PackageQuery::Manifest(path(&["c", "Cargo.toml"]));
    assert_eq!(cargo_package(&manifests, &query), Err(PackageError::Workspace));
}

#[test]
fn package_by_folder() {
    let manifests = vec![path(&["a", "Cargo.toml"]), path(&["b", "Cargo.toml"])];
    assert_eq!(cargo_package(&manifests, &PackageQuery::CurrentDir(path(&["a"]))), Ok(0));
    assert_eq!(
        cargo_package(&manifests, &PackageQuery::CurrentDir(path(&[]))),
        Err(PackageError::Workspace)
    );
}

#[test]
fn manifest_without_folder() {
    let manifests = vec![path(&["a", "Cargo.toml"]), path(&[])];
    assert_eq!(
        cargo_package(&manifests, &PackageQuery::CurrentDir(path(&["b"]))),
        Err(PackageError::NoParentFolder(1))
    );
    let empty = PathParts { parts: vec![] };
    assert_eq!(probe(&empty, &PackageQuery::CurrentDir(path(&[]))), Probe::NoParent);
    let prefix = PathParts { parts: vec![Component::Prefix(vec![67, 58])] };
    assert_eq!(probe(&prefix, &PackageQuery::CurrentDir(path(&[]))), Probe::NoParent);
    let relative = PathParts { parts: vec![Component::CurDir, Component::ParentDir] };
    let dir = PathParts { parts: vec![Component::CurDir] };
    assert_eq!(probe(&relative, &PackageQuery::CurrentDir(dir)), Probe::Match);
}

#[test]
fn dependency_is_compiled_only() {
    let a = args(&["cargo-pinvio", "rustc", "--crate-type", "lib", "/dep/src/lib.rs", "--target=t"]);
    assert_eq!(source_file(&a), Some("/dep/src/lib.rs".to_string()));
    assert_eq!(into_cargo_rustc(&a, false), RustcPlan { analyse: false, compile: true });
}

#[test]
fn build_script_is_compiled_only() {
    let a = args(&["cargo-pinvio", "rustc", "build.rs", "--crate-type", "bin"]);
    assert_eq!(into_cargo_rustc(&a, true), RustcPlan { analyse: false, compile: true });
}

#[test]
fn query_of_the_compiler_is_passed_on() {
    let a = args(&["cargo-pinvio", "rustc", "-vV", "--target", "t"]);
    assert_eq!(source_file(&a), None);
    assert_eq!(into_cargo_rustc(&a, true), RustcPlan { analyse: false, compile: true });
}

#[test]
fn library_is_analysed_and_compiled() {
    let a = args(&["cargo-pinvio", "rustc", "src/lib.rs", "--crate-type=lib", "--target", "t"]);
    assert!(is_crate_type_lib(&a));
    assert_eq!(into_cargo_rustc(&a, true), RustcPlan { analyse: true, compile: true });
}

#[test]
fn executable_is_analysed_only() {
    let a = args(&["cargo-pinvio", "rustc", "src/main.rs", "--crate-type", "bin", "--target=t"]);
    assert!(!is_crate_type_lib(&a));
    assert_eq!(into_cargo_rustc(&a, true), RustcPlan { analyse: true, compile: false });
}

#[test]
fn arguments_of_the_two_calls() {
    let a = args(&["cargo-pinvio", "rustc", "src/main.rs"]);
    assert_eq!(compiler_args(&a), args(&["src/main.rs"]));
    assert_eq!(extended_args(&a, args(&["-Zx"])), args(&["src/main.rs", "-Zx"]));
    assert_eq!(analyser_args(&a, "[\"-Zpinvio\"]"), Ok(args(&["src/main.rs", "-Zpinvio"])));
    assert_eq!(analyser_args(&a, "{}"), Err(DecodeError));
    assert_eq!(compiler_args(&args(&["x"])), args(&[]));
}

#[test]
fn handed_over_arguments_arrive() {
    let own = args(&["cargo-pinvio", "pinvio", "--", "-Z\"a\"", "b"]);
    let call = args(&["cargo-pinvio", "rustc", "src/main.rs"]);
    let all = analyser_args(&call, &pinvio_args(&own));
    assert_eq!(all, Ok(args(&["src/main.rs", "-Z\"a\"", "b"])));
}

#[test]
fn exit_codes() {
    assert_eq!(exit_code(true, Some(0)), None);
    assert_eq!(exit_code(false, Some(7)), Some(7));
    assert_eq!(exit_code(false, None), Some(42));
}

#[test]
fn check_always_names_a_triple() {
    for list in [
        vec!["cargo-pinvio", "pinvio"],
        vec!["cargo-pinvio", "pinvio", "--target", "t", "--release"],
        vec!["cargo-pinvio", "pinvio", "--target=t"],
        vec!["cargo-pinvio", "pinvio", "--target"],
        vec!["cargo-pinvio", "pinvio", "--", "--target", "t"],
    ] {
        let command = cargo_check_args(TargetKind::Library, "l", &args(&list), Some("host"));
        assert!(get_arg_flag_value(&command, "--target").is_some());
    }
}

#[test]
fn any_flag_stops_at_the_first_accepted_value() {
    let a = args(&[
        "cargo-pinvio", "rustc", "--crate-type", "bin", "--crate-type=rlib", "--crate-type", "lib",
    ]);
    let asked = std::cell::RefCell::new(Vec::new());
    let found = any_arg_flag(&a, "--crate-type", |v: &str| {
        asked.borrow_mut().push(v.to_string());
        TargetKind::is_lib_str(v)
    });
    assert!(found);
    assert_eq!(asked.into_inner(), args(&["bin", "rlib"]));
}

#[test]
fn steps_are_taken_in_order() {
    let steps = into_cargo_pinvio(&vec![
        target("b", vec![CargoKind::Bin]),
        target("t", vec![CargoKind::Test]),
    ]);
    assert!(matches!(first_action(&steps), Action::Run(0)));
    assert!(matches!(after_step(&steps, 0, Outcome::Exited { success: true }), Action::Run(1)));
    assert!(matches!(after_step(&steps, 1, Outcome::Skipped), Action::Done));
    assert!(matches!(first_action(&vec![]), Action::Done));
}

#[test]
fn failed_steps_end_the_run() {
    let steps = vec![Step::Clean(0), Step::Check(0), Step::Check(1)];
    match after_step(&steps, 0, Outcome::Cleaned { success: false }) {
        Action::Exit { kill_first, code, message } => {
            assert!(!kill_first);
            assert_eq!(code, 1);
            assert_eq!(message, "cargo clean failed");
        }
        other => panic!("{other:?}"),
    }
    match after_step(&steps, 1, Outcome::TimedOut) {
        Action::Exit { kill_first, code, message } => {
            assert!(kill_first);
            assert_eq!(code, 1);
            assert_eq!(message, "Killed due to timeout");
        }
        other => panic!("{other:?}"),
    }
    match after_step(&steps, 2, Outcome::Exited { success: false }) {
        Action::Exit { kill_first, code, message } => {
            assert!(!kill_first);
            assert_eq!(code, 1);
            assert_eq!(message, "Finished with non-zero exit code");
        }
        other => panic!("{other:?}"),
    }
}

#[test]
fn compiler_follows_a_good_analysis_only() {
    let both = RustcPlan { analyse: true, compile: true };
    let run = |command| CallAction::Run(command);
    assert_eq!(first_call(both), run(Command::Analyser));
    assert_eq!(after_call(both, Command::Analyser, true, Some(0)), run(Command::Compiler));
    assert_eq!(after_call(both, Command::Analyser, false, Some(3)), CallAction::Exit(3));
    assert_eq!(after_call(both, Command::Analyser, false, None), CallAction::Exit(42));
    assert_eq!(after_call(both, Command::Compiler, true, Some(0)), CallAction::Done);
    assert_eq!(after_call(both, Command::Compiler, false, Some(1)), CallAction::Exit(1));
    let analyse = RustcPlan { analyse: true, compile: false };
    assert_eq!(after_call(analyse, Command::Analyser, true, Some(0)), CallAction::Done);
    let compile = RustcPlan { analyse: false, compile: true };
    assert_eq!(first_call(compile), run(Command::Compiler));
}

fn on_windows() -> bool {
    std::path::MAIN_SEPARATOR == '\\'
}

#[test]
fn relative_sources_are_analysed() {
    let call = |file: &str| plan_call(&args(&["cargo-pinvio", "rustc", file, "--target=t"]));
    assert_eq!(call("src/main.rs"), RustcPlan { analyse: true, compile: false });
    assert_eq!(call("-vV"), RustcPlan { analyse: false, compile: true });
    // The root of this platform's paths.
    let absolute = format!("{}main.rs", if on_windows() { "C:\\" } else { "/" });
    assert_eq!(call(&absolute), RustcPlan { analyse: false, compile: true });
}
