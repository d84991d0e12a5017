use fae::cmdline::compose_command_line;
use fae::cmdline::quote_arg;

fn compose(template: &str, args: &[&str]) -> String {
    let template = template.to_string();
    let args: Vec<String> = args.iter().map(|a| a.to_string()).collect();
    compose_command_line(&template, &args)
}

#[test]
fn quoting_spaced_argument() {
    assert_eq!(compose("echo", &["hello world"]), "echo 'hello world'");
}

#[test]
fn quoting_plain_argument() {
    assert_eq!(compose("echo", &["hello"]), "echo hello");
}

#[test]
fn quoting_no_arguments_leaves_template() {
    assert_eq!(compose("echo", &[]), "echo");
}

#[test]
fn quoting_tab_argument() {
    assert_eq!(compose("printf", &["a\tb"]), "printf 'a\tb'");
}

#[test]
fn quoting_joins_arguments_with_spaces() {
    assert_eq!(compose("cp", &["a b", "c"]), "cp 'a b' c");
}

#[test]
fn quote_arg_wraps_only_whitespace() {
    assert_eq!(quote_arg(&"x y".to_string()), "'x y'");
    assert_eq!(quote_arg(&"xy".to_string()), "xy");
    assert_eq!(quote_arg(&"a\nb".to_string()), "'a\nb'");
}

#[test]
fn quoting_unicode_whitespace_argument() {
    assert_eq!(compose("echo", &["a\u{000B}b"]), "echo 'a\u{000B}b'");
    assert_eq!(compose("echo", &["a\u{00A0}b"]), "echo 'a\u{00A0}b'");
    assert_eq!(compose("echo", &["a\u{2003}b"]), "echo 'a\u{2003}b'");
}
