//! What installing decides: whether a shim may be written, and the profile afterwards.

use devkit_poe_complete::install::{ShimWrite, contains_str, profile_text, shim_write};
use devkit_poe_complete::scripts::{BASH, POWERSHELL};

#[test]
fn a_current_shim_is_left_alone() {
    assert_eq!(shim_write(Some(POWERSHELL), POWERSHELL), ShimWrite::Skip);
}

#[test]
fn an_older_shim_of_ours_is_rewritten_and_a_missing_one_written() {
    assert_eq!(shim_write(Some("# old devkit thin shim (shim version 1)\n"), BASH), ShimWrite::Write);
    assert_eq!(shim_write(None, BASH), ShimWrite::Write);
}

#[test]
fn a_file_someone_else_wrote_is_refused() {
    assert_eq!(shim_write(Some("# my own completion\n"), BASH), ShimWrite::Refuse);
    assert_eq!(shim_write(Some(""), BASH), ShimWrite::Refuse);
}

#[test]
fn registering_drops_poes_line_and_earlier_lines_of_ours() {
    let old = "Import-Module x\r\n(& poe _powershell_completion) | Out-String | Invoke-Expression\n. \"C:/old/poe-completion.ps1\"\nSet-Alias g git";
    let line = ". \"C:/u/.local/share/devkit/poe-completion.ps1\"";
    assert_eq!(
        profile_text(old, line),
        format!("Import-Module x\nSet-Alias g git\n{line}\n")
    );
}

#[test]
fn registering_is_idempotent() {
    let line = ". \"/h/poe-completion.ps1\"";
    let once = profile_text("a\n\nb\n", line);
    assert_eq!(once, format!("a\n\nb\n{line}\n"));
    assert_eq!(profile_text(&once, line), once);
    assert_eq!(profile_text("", line), format!("{line}\n"));
}

#[test]
fn contains_str_finds_a_substring_anywhere() {
    assert!(contains_str("abc", "bc"));
    assert!(contains_str("abc", ""));
    assert!(contains_str("abc", "abc"));
    assert!(!contains_str("abc", "abcd"));
    assert!(!contains_str("abc", "ac"));
}

#[test]
fn a_lone_carriage_return_at_the_end_is_normalised_once() {
    // `str::lines` keeps a final `\r` that no `\n` follows; written back with a newline it
    // is read as a line ending, so only the first registration changes it.
    let line = ". \"/h/poe-completion.ps1\"";
    let once = profile_text("a\r", line);
    assert_eq!(once, format!("a\r\n{line}\n"));
    assert_eq!(profile_text(&once, line), format!("a\n{line}\n"));
}
