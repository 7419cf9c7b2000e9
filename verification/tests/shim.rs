//! Contract tests for the shell shims.

use devkit_poe_complete::scripts::{BASH, POWERSHELL, SHIM_VERSION};

#[test]
fn both_shims_send_the_version_the_binary_speaks() {
    let stamp = format!("--shim-version {SHIM_VERSION}");
    assert!(BASH.contains(&stamp), "bash shim must send the current version");
    assert!(POWERSHELL.contains(&stamp), "powershell shim must send it too");
}

#[test]
fn neither_shim_evaluates_fetched_script_text() {
    for line in POWERSHELL.lines().filter(|l| !l.trim_start().starts_with('#')) {
        assert!(!line.contains("Invoke-Expression"), "shim must not evaluate fetched text: {line}");
    }
}

#[test]
fn both_shims_tolerate_devkit_being_absent() {
    assert!(BASH.contains("command -v devkit"), "bash shim must guard on devkit's presence");
    assert!(POWERSHELL.contains("Get-Command devkit"), "powershell shim must guard likewise");
}

#[test]
fn both_shims_handle_every_directive_the_wire_format_can_send() {
    for (name, text) in [("bash", BASH), ("powershell", POWERSHELL)] {
        for directive in ["items", "dirs", "files"] {
            assert!(text.contains(directive), "{name} shim ignores the {directive} directive");
        }
    }
}

#[test]
fn the_powershell_shim_passes_an_empty_word_as_one_token() {
    assert!(
        POWERSHELL.contains("--word-to-complete=$wordToComplete"),
        "must use the =value form so an empty word survives as a single token"
    );
}

#[test]
fn both_shims_state_their_version_in_the_header() {
    let header = format!("(shim version {SHIM_VERSION})");
    assert!(BASH.lines().next().unwrap().contains(&header));
    assert!(POWERSHELL.lines().next().unwrap().contains(&header));
}

/// FNV-1a, 64-bit: a change detector, pinned here so the expected values cannot shift when
/// a crate updates.
fn fnv1a(text: &str) -> u64 {
    let mut hash: u64 = 0xcbf2_9ce4_8422_2325;
    for byte in text.as_bytes() {
        hash ^= u64::from(*byte);
        hash = hash.wrapping_mul(0x0000_0100_0000_01b3);
    }
    hash
}

#[test]
fn shim_text_is_pinned_to_shim_version_two() {
    // Edit either shim and this fails, forcing a deliberate decision about SHIM_VERSION
    // rather than letting an installed shim silently differ from the shipped one.
    assert_eq!(SHIM_VERSION, 2);
    assert_eq!(
        (fnv1a(BASH), fnv1a(POWERSHELL)),
        (0xf8ba_7876_625e_b2e7, 0x1d04_b9fd_924d_7d3e),
        "shim text changed: bump SHIM_VERSION (and the shim's own header comment), then update these hashes"
    );
}
