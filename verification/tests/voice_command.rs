use aivorelay::settings::ExecutionPolicy;
use aivorelay::voice_command::{
    execution_options, format_execution_policy, launch_result, parse_execution_policy, powershell_invocation,
    word_overlap,
};

#[test]
fn policies() {
    assert_eq!(parse_execution_policy(Some("bypass")), Some(ExecutionPolicy::Bypass));
    assert_eq!(parse_execution_policy(Some("remote_signed")), Some(ExecutionPolicy::RemoteSigned));
    assert_eq!(parse_execution_policy(Some("other")), None);
    assert_eq!(parse_execution_policy(None), None);
    assert_eq!(format_execution_policy(ExecutionPolicy::Unrestricted), Some("unrestricted".to_string()));
    assert_eq!(format_execution_policy(ExecutionPolicy::Default), None);
}

#[test]
fn invocations() {
    let silent = execution_options(true, true, false, Some("bypass"), None);
    let inv = powershell_invocation("Get-Date", &silent).unwrap();
    assert_eq!(inv.program, "powershell");
    assert_eq!(inv.args, vec!["-NoProfile", "-NonInteractive", "-ExecutionPolicy", "Bypass", "-Command", "Get-Date"]);
    assert!(inv.hidden);
    let window = execution_options(false, false, true, None, Some("  ".to_string()));
    let inv = powershell_invocation("ls", &window).unwrap();
    assert_eq!(inv.program, "pwsh");
    assert_eq!(inv.args, vec!["-NoExit", "-Command", "ls"]);
    assert_eq!(inv.working_directory, None);
    assert_eq!(powershell_invocation("  ", &window).unwrap_err(), "Command is empty");
}

#[test]
fn launch_messages() {
    assert_eq!(launch_result(true, "pwsh", None), Ok("Command started in background".to_string()));
    assert_eq!(launch_result(false, "pwsh", None), Ok("Command opened in PowerShell window".to_string()));
    assert_eq!(launch_result(true, "pwsh", Some("denied")), Err("Failed to spawn command: denied".to_string()));
    assert_eq!(launch_result(false, "pwsh", Some("denied")), Err("Failed to open pwsh window: denied".to_string()));
}

#[test]
fn word_overlaps() {
    let o = word_overlap("Open  Chrome now", "open chrome");
    assert!(!o.exact);
    assert_eq!((o.first_words, o.second_words, o.shared, o.total), (3, 2, 2, 3));
    assert!(word_overlap("Lock Computer", "lock computer").exact);
    let d = word_overlap("a a b", "B");
    assert_eq!((d.first_words, d.second_words, d.shared, d.total), (2, 1, 1, 2));
    let e = word_overlap("   ", "x");
    assert_eq!((e.first_words, e.shared, e.total), (0, 0, 1));
}
