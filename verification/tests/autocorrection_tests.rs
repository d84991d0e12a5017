use fae::autocorrection::correct;
use fae::autocorrection::field_exists;
use fae::autocorrection::remove_whitespace;
use fae::autocorrection::run;

#[test]
fn remove_whitespace_strips_all() {
    assert_eq!(remove_whitespace("a b\tc\nd"), "abcd");
    assert_eq!(remove_whitespace("   "), "");
    assert_eq!(remove_whitespace("plain"), "plain");
}

#[test]
fn field_exists_detects_assignment() {
    assert!(field_exists("needs = [\"x\"]", "needs"));
    assert!(field_exists("[job]\n  cmd = \"make\"", "cmd"));
}

#[test]
fn field_exists_ignores_absent_field() {
    assert!(!field_exists("run = \"x\"", "needs"));
    assert!(!field_exists("uses = []", "use"));
}

#[test]
fn run_warns_on_alias_fields() {
    let warnings = run("needs = [\"a\"]\ncmd = \"make\"");
    assert_eq!(warnings.len(), 2);
    assert_eq!(warnings[0].field, "needs");
    assert_eq!(warnings[0].replacement, "uses");
    assert_eq!(warnings[1].field, "cmd");
    assert_eq!(warnings[1].replacement, "run");
}

#[test]
fn run_accepts_supported_fields() {
    let warnings = run("uses = [\"a\"]\nrun = \"make\"");
    assert!(warnings.is_empty());
}

#[test]
fn correct_reports_only_present_aliases() {
    let warnings = correct("before = 1", "uses", vec!["use", "before"]);
    assert_eq!(warnings.len(), 1);
    assert_eq!(warnings[0].field, "before");
    assert_eq!(warnings[0].replacement, "uses");
}

#[test]
fn remove_whitespace_strips_unicode_whitespace() {
    assert_eq!(remove_whitespace("a\u{000B}b\u{00A0}c\u{2003}d"), "abcd");
}

#[test]
fn field_exists_sees_through_unicode_whitespace() {
    assert!(field_exists("needs\u{2003}= 1", "needs"));
}
