//! The recording runner: calls are recorded and answered from scripts.

use devkit_poe_complete::process::{CapturedOutput, RecordingRunner};

fn args(a: &[&str]) -> Vec<String> {
    a.iter().map(|s| s.to_string()).collect()
}

#[test]
fn an_unmatched_call_exits_with_the_default_code_and_no_output() {
    let mut r = RecordingRunner::new(3);
    let out = r.run_capture("poe", &args(&["x"]), "/w");
    assert_eq!(out, CapturedOutput { code: Some(3), stdout: String::new(), stderr: String::new() });
    assert!(!out.success());
    assert_eq!(r.calls.len(), 1);
    assert_eq!(r.calls[0].program, "poe");
    assert_eq!(r.calls[0].args, args(&["x"]));
    assert_eq!(r.calls[0].cwd, "/w");
}

#[test]
fn the_latest_matching_script_wins() {
    let mut r = RecordingRunner::new(1);
    r.script("python", &["-c"], 0, "broad");
    r.script("python", &["-c", "special"], 0, "narrow");
    assert_eq!(r.run_capture("python", &args(&["-c", "special", "x"]), ".").stdout, "narrow");
    assert_eq!(r.run_capture("python", &args(&["-c", "other"]), ".").stdout, "broad");
    // A prefix longer than the call's arguments does not match.
    assert_eq!(r.run_capture("python", &args(&[]), ".").code, Some(1));
    // Neither does another program.
    assert_eq!(r.run_capture("py", &args(&["-c"]), ".").code, Some(1));
}

#[test]
fn a_scripted_exit_code_is_reported() {
    let mut r = RecordingRunner::new(0);
    r.script("poe", &[], 2, "out");
    let out = r.run_capture("poe", &args(&["anything"]), ".");
    assert_eq!(out.code, Some(2));
    assert_eq!(out.stdout, "out");
    assert!(!out.success());
}

#[test]
fn calls_for_lists_a_programs_argument_lists_in_order() {
    let mut r = RecordingRunner::new(0);
    r.run_capture("a", &args(&["1"]), ".");
    r.run_capture("b", &args(&["2"]), ".");
    r.run_capture("a", &args(&["3", "4"]), ".");
    assert_eq!(r.calls_for("a"), vec![args(&["1"]), args(&["3", "4"])]);
    assert_eq!(r.calls_for("c"), Vec::<Vec<String>>::new());
}

#[test]
fn success_means_exit_status_zero() {
    let ok = CapturedOutput { code: Some(0), stdout: String::new(), stderr: String::new() };
    let killed = CapturedOutput { code: None, stdout: String::new(), stderr: String::new() };
    assert!(ok.success());
    assert!(!killed.success());
}
