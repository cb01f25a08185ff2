use cargo_x::handle::{interpolate, interpolate_for, shell_escape, shell_escape_cmd, truncate, ShellKind};

fn strings(args: &[&str]) -> Vec<String> {
    args.iter().map(|arg| arg.to_string()).collect()
}

#[test]
fn interpolate_without_args_keeps_template() {
    assert_eq!(interpolate("cargo test", &vec![]), "cargo test");
}

#[test]
fn interpolate_appends_args_without_placeholder() {
    assert_eq!(
        interpolate("cargo test", &strings(&["--", "--nocapture"])),
        "cargo test -- --nocapture"
    );
}

#[test]
fn interpolate_replaces_placeholder() {
    assert_eq!(
        interpolate("cargo test {{args}} --verbose", &strings(&["foo bar"])),
        "cargo test 'foo bar' --verbose"
    );
}

#[test]
fn truncate_shortens_long_text() {
    assert_eq!(truncate("short", 10), "short");
    assert_eq!(truncate("a much longer text", 10).chars().count(), 10);
}

#[test]
fn truncate_exact_values() {
    assert_eq!(truncate("a much longer text", 10), "a much lo…");
    assert_eq!(truncate("line\nbreak", 20), "line break");
    assert_eq!(truncate("abc", 0), "…");
    assert_eq!(truncate("abc", 3), "abc");
}

#[test]
fn placeholder_without_args_becomes_empty() {
    assert_eq!(interpolate("run {{args}}!", &vec![]), "run !");
    assert_eq!(
        interpolate("a {{args}} b {{args}}", &strings(&["x"])),
        "a x b x"
    );
}

#[test]
fn posix_quoting() {
    assert_eq!(shell_escape(""), "''");
    assert_eq!(shell_escape("a-b_c.d/e:f@g=h+i%j,k"), "a-b_c.d/e:f@g=h+i%j,k");
    assert_eq!(shell_escape("it's"), "'it'\\''s'");
    assert_eq!(shell_escape("$HOME"), "'$HOME'");
}

#[test]
fn cmd_quoting() {
    assert_eq!(shell_escape_cmd(""), "\"\"");
    assert_eq!(shell_escape_cmd("plain"), "plain");
    assert_eq!(shell_escape_cmd("say \"hi\""), "\"say \\\"hi\\\"\"");
    assert_eq!(
        interpolate_for(ShellKind::Cmd, "echo", &strings(&["a b"])),
        "echo \"a b\""
    );
}

#[test]
fn empty_argument_is_quoted_when_appended() {
    assert_eq!(interpolate("echo", &strings(&[""])), "echo ''");
}
