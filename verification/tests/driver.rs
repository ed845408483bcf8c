//! The compiler driver.

use pinvio::driver::{add_sysroot, compile_time_sysroot, parse_config, PinvioCompilerCalls};
use pinvio::run_analysis;

fn args(list: &[&str]) -> Vec<String> {
    list.iter().map(|s| s.to_string()).collect()
}

#[test]
fn banner_of_a_named_crate() {
    let calls = PinvioCompilerCalls::new();
    assert_eq!(
        calls.after_analysis(Some("demo"), "src/lib.rs"),
        args(&[
            "====================",
            "Crate: demo (entry point: src/lib.rs)",
            "Note: analysis covers ALL modules in the crate, not only the entry point file.",
        ])
    );
}

#[test]
fn banner_of_a_nameless_crate() {
    let lines = PinvioCompilerCalls::new().after_analysis(None, "<anon>");
    assert_eq!(lines[1], "Crate: unknown-crate (entry point: <anon>)");
}

#[test]
fn own_flag_is_taken_out() {
    let config = parse_config(&args(&["pinvio", "-Zpinvio", "a.rs", "-Zpinvio", "-Zpinvio2"]));
    assert_eq!(config.args, args(&["pinvio", "a.rs", "-Zpinvio2"]));
    assert_eq!(config.own_flags, 2);
}

#[test]
fn build_time_sysroot_is_kept() {
    assert_eq!(compile_time_sysroot(Some("/s")), Some("/s".to_string()));
}

#[test]
fn sysroot_is_added_once() {
    let once = add_sysroot(args(&["a.rs"]), Some("/s".to_string()));
    assert_eq!(once, args(&["a.rs", "--sysroot", "/s"]));
    assert_eq!(add_sysroot(once.clone(), Some("/t".to_string())), once);
}

#[test]
fn given_sysroot_stays() {
    let own = args(&["--sysroot", "/own"]);
    assert_eq!(add_sysroot(own.clone(), Some("/s".to_string())), own);
    assert_eq!(add_sysroot(args(&["a.rs"]), None), args(&["a.rs"]));
    // Only the flag by itself counts.
    assert_eq!(
        add_sysroot(args(&["--sysroot=/own"]), Some("/s".to_string())),
        args(&["--sysroot=/own", "--sysroot", "/s"])
    );
}

#[test]
fn run_is_announced_and_closed() {
    let run = run_analysis("Demo", || 3);
    assert_eq!(run.started, "++++++++++++++++++++ Running: Demo");
    assert_eq!(run.result, 3);
    assert_eq!(run.finished, "-------------------- Complete: Demo");
}
