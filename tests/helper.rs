use anneal::helper::{HelperInvocation, RebuildError};

#[test]
fn known_helper_paru() {
    let inv = HelperInvocation::for_known_helper("paru");
    assert_eq!(inv.command, "paru");
    assert_eq!(inv.base_args, vec!["-S", "--rebuild"]);
}

#[test]
fn known_helper_yay() {
    let inv = HelperInvocation::for_known_helper("yay");
    assert_eq!(inv.command, "yay");
    assert_eq!(inv.base_args, vec!["-S", "--rebuild"]);
}

#[test]
fn known_helper_pikaur() {
    let inv = HelperInvocation::for_known_helper("pikaur");
    assert_eq!(inv.command, "pikaur");
    assert_eq!(inv.base_args, vec!["-S", "--rebuild"]);
}

#[test]
fn known_helper_aura() {
    // aura uses -A instead of -S
    let inv = HelperInvocation::for_known_helper("aura");
    assert_eq!(inv.command, "aura");
    assert_eq!(inv.base_args, vec!["-A", "--rebuild"]);
}

#[test]
fn known_helper_trizen() {
    let inv = HelperInvocation::for_known_helper("trizen");
    assert_eq!(inv.command, "trizen");
    assert_eq!(inv.base_args, vec!["-S", "--rebuild"]);
}

#[test]
fn custom_command_simple() {
    let inv = HelperInvocation::from_custom("my-helper");
    assert_eq!(inv.command, "my-helper");
    assert!(inv.base_args.is_empty());
}

#[test]
fn custom_command_with_args() {
    let inv = HelperInvocation::from_custom("my-helper -S --rebuild --custom");
    assert_eq!(inv.command, "my-helper");
    assert_eq!(inv.base_args, vec!["-S", "--rebuild", "--custom"]);
}

#[test]
fn custom_command_extra_whitespace() {
    let inv = HelperInvocation::from_custom("  my-helper   -S   --rebuild  ");
    assert_eq!(inv.command, "my-helper");
    assert_eq!(inv.base_args, vec!["-S", "--rebuild"]);
}

#[test]
fn no_helper() {
    let err = RebuildError::NoHelper;
    let msg = err.message();
    assert!(msg.contains("No AUR helper detected"));
    assert!(msg.contains("paru"));
    assert!(msg.contains("yay"));
}

#[test]
fn ambiguous_helper() {
    let err = RebuildError::AmbiguousHelper(vec!["paru".into(), "yay".into()]);
    let msg = err.message();
    assert!(msg.contains("Multiple AUR helpers found"));
    assert!(msg.contains("paru"));
    assert!(msg.contains("yay"));
}

#[test]
fn helper_not_found() {
    let err = RebuildError::HelperNotFound("nonexistent".into());
    let msg = err.message();
    assert!(msg.contains("nonexistent"));
    assert!(msg.contains("not found"));
}

#[test]
fn helper_failed() {
    let err = RebuildError::HelperFailed(1);
    let msg = err.message();
    assert!(msg.contains("exited with code 1"));
}

#[test]
fn package_not_in_queue() {
    let err = RebuildError::PackageNotInQueue("my-pkg".into());
    let msg = err.message();
    assert!(msg.contains("my-pkg"));
    assert!(msg.contains("not in the queue"));
    assert!(msg.contains("-f"));
}

