//! Drift repair: an old shim asking a new binary gets its files rewritten, once.

use devkit_poe_complete::engine::Shell;
use devkit_poe_complete::repair::{
    bash_targets, needs_rewrite, repair_plan, repair_targets, shim_paths, shim_script, shim_targets,
    stale_targets,
};
use devkit_poe_complete::scripts::{BASH, POWERSHELL, SHIM_VERSION};

/// The version an already-open shell would report after devkit was upgraded under it.
const OLD: u32 = SHIM_VERSION - 1;

#[test]
fn a_stale_version_whose_file_is_already_current_writes_nothing() {
    // The case that makes idempotence essential: an open shell holds the old shim in memory
    // and reports the old version on EVERY press, long after the file was fixed.
    let (targets, script) = repair_plan(Shell::PowerShell, OLD);
    assert_eq!(targets.len(), 1);
    assert!(targets.iter().all(|_| !needs_rewrite(Some(POWERSHELL), script)));
}

#[test]
fn a_matching_version_plans_no_target() {
    let (targets, _) = repair_plan(Shell::PowerShell, SHIM_VERSION);
    assert!(targets.is_empty());
    let (targets, _) = repair_plan(Shell::Bash, SHIM_VERSION);
    assert!(targets.is_empty());
}

#[test]
fn a_stale_bash_shim_plans_every_target_not_just_the_first() {
    let (targets, script) = repair_plan(Shell::Bash, OLD);
    assert_eq!(script, BASH);
    assert_eq!(
        targets,
        [
            vec!["bash_completion.d", "poe.bash"],
            vec![".local", "share", "bash-completion", "completions", "poe"],
        ]
    );
}

#[test]
fn the_powershell_shim_lives_under_local_share() {
    assert_eq!(shim_targets(Shell::PowerShell), [vec![".local", "share", "devkit", "poe-completion.ps1"]]);
    assert_eq!(shim_script(Shell::PowerShell), POWERSHELL);
}

#[test]
fn outdated_missing_or_unreadable_text_needs_a_rewrite() {
    assert!(needs_rewrite(Some("# ancient shim\n"), POWERSHELL));
    assert!(needs_rewrite(None, POWERSHELL));
    assert!(!needs_rewrite(Some(BASH), BASH));
    assert!(needs_rewrite(Some(BASH), POWERSHELL));
}

#[test]
fn repair_targets_are_the_planned_files_under_home() {
    let (paths, script) = repair_targets("/home/u", Shell::Bash, OLD);
    assert_eq!(script, BASH);
    assert_eq!(
        paths,
        [
            "/home/u/bash_completion.d/poe.bash",
            "/home/u/.local/share/bash-completion/completions/poe",
        ]
    );
    assert_eq!(paths, bash_targets("/home/u"));
    let (paths, _) = repair_targets("/home/u", Shell::PowerShell, SHIM_VERSION);
    assert!(paths.is_empty());
    assert_eq!(shim_paths("/home/u", Shell::PowerShell), ["/home/u/.local/share/devkit/poe-completion.ps1"]);
}

#[test]
fn bash_repairs_every_stale_target_not_just_the_first() {
    let (paths, script) = repair_targets("/h", Shell::Bash, OLD);
    let ancient = vec![Some("# ancient shim\n".to_string()), Some("# ancient shim\n".to_string())];
    assert_eq!(stale_targets(&paths, &ancient, script), paths);
    let mixed = vec![Some(BASH.to_string()), None];
    assert_eq!(stale_targets(&paths, &mixed, script), [paths[1].clone()]);
    let current = vec![Some(BASH.to_string()), Some(BASH.to_string())];
    assert!(stale_targets(&paths, &current, script).is_empty());
    // A target whose content was not read counts as missing.
    assert_eq!(stale_targets(&paths, &vec![Some(BASH.to_string())], script), [paths[1].clone()]);
}

#[test]
fn a_matching_version_writes_nothing() {
    let (paths, script) = repair_targets("/h", Shell::PowerShell, SHIM_VERSION);
    assert!(stale_targets(&paths, &vec![Some("# stale content\n".to_string())], script).is_empty());
}
