//! The end-to-end behaviours of the `x` / `cargo-x` programs, driven through
//! the library: arguments are parsed, configuration is read from file texts,
//! and the runner is asked what to execute.
use cargo_x::cli::{cli_args, parse_args, Invocation};
use cargo_x::config::{get_from, load_cargo_metadata, CommandKind, ConfigFile, Xconf};
use cargo_x::handle::{
    command_names, is_confirmation, list_lines, show_lines, Action, Opts, Runner, ShellKind,
};

const MANIFEST_HEAD: &str = "[package]\nname = \"fixture\"\nversion = \"0.1.0\"\nedition = \"2021\"\n\n";

fn strings(args: &[&str]) -> Vec<String> {
    args.iter().map(|a| a.to_string()).collect()
}

fn print_command(message: &str) -> String {
    format!("printf '{message}\\n'")
}

fn exit_command(code: i32) -> String {
    format!("exit {code}")
}

fn append_command(file: &str, content: &str) -> String {
    format!("printf '{content}\\n' >> {file}")
}

fn toml_string(value: &str) -> String {
    format!("\"{}\"", value.replace('\\', "\\\\").replace('"', "\\\""))
}

fn command_entry(name: &str, command: &str) -> String {
    format!("{name} = {}\n", toml_string(command))
}

fn home_file(text: &str) -> ConfigFile {
    ConfigFile {
        path: "/home/me/.x.toml".to_string(),
        source: "~/.x.toml".to_string(),
        base_dir: Some("/home/me".to_string()),
        text: text.to_string(),
    }
}

fn project_file(text: &str) -> ConfigFile {
    ConfigFile {
        path: "/proj/x.toml".to_string(),
        source: "/proj/x.toml".to_string(),
        base_dir: Some("/proj".to_string()),
        text: text.to_string(),
    }
}

fn project(text: &str) -> Xconf {
    get_from(None, Some(project_file(text))).unwrap()
}

/// What the program does with `args` (after the program name): the actions
/// the runner asks for, each shell command "exiting" with `status`.
fn drive(conf: &Xconf, args: &[&str], status: i32) -> (Vec<String>, Vec<bool>, i32, Vec<String>) {
    let (name, rest, opts) = match parse_args(&strings(args)).unwrap() {
        Invocation::Run { name, args, opts, .. } => (name.unwrap(), args, opts),
        _ => panic!("expected a run"),
    };
    let (mut runner, mut action) = Runner::start(ShellKind::Posix, opts, &name, &rest, conf);
    let mut lines = Vec::new();
    let mut printed = Vec::new();
    loop {
        action = match action {
            Action::Run(step) => {
                lines.push(step.command_line.clone());
                printed.push(step.print_only);
                let code = if step.print_only { 0 } else { status };
                runner.resume(code, conf)
            }
            Action::Continue => runner.advance(conf),
            Action::Finish { code, errors } => return (lines, printed, code, errors),
        }
    }
}

#[test]
fn cargo_x_runs_command_from_project_config() {
    let conf = project(&command_entry("say", &print_command("from-project")));
    let args = cli_args(&strings(&["/usr/bin/cargo-x", "say"]), "cargo-x");
    let args: Vec<&str> = args.iter().map(String::as_str).collect();
    let (lines, _, code, _) = drive(&conf, &args, 0);
    assert_eq!(code, 0);
    assert_eq!(lines, vec!["printf 'from-project\\n'"]);
}

#[test]
fn x_binary_runs_command_from_project_config() {
    let conf = project(&command_entry("say", &print_command("from-x")));
    let args = cli_args(&strings(&["/usr/bin/x", "say"]), "cargo-x");
    assert_eq!(args, vec!["say"]);
    let (lines, _, code, _) = drive(&conf, &["say"], 0);
    assert_eq!(code, 0);
    assert_eq!(lines, vec!["printf 'from-x\\n'"]);
}

#[test]
fn manifest_metadata_overrides_project_and_home_config() {
    let mut conf = get_from(
        Some(home_file(&command_entry("shared", &print_command("from-home")))),
        Some(project_file(&command_entry("shared", &print_command("from-project")))),
    )
    .unwrap();
    let manifest = format!(
        "{MANIFEST_HEAD}[package.metadata.x]\n{}",
        command_entry("shared", &print_command("from-manifest"))
    );
    load_cargo_metadata("/proj/Cargo.toml", &manifest, "/proj", &mut conf).unwrap();
    let (lines, _, code, _) = drive(&conf, &["shared"], 0);
    assert_eq!(code, 0);
    assert_eq!(lines, vec!["printf 'from-manifest\\n'"]);
}

#[test]
fn home_config_still_works() {
    let conf = get_from(Some(home_file(&command_entry("say", &print_command("from-home")))), None)
        .unwrap();
    let (lines, _, code, _) = drive(&conf, &["say"], 0);
    assert_eq!(code, 0);
    assert_eq!(lines, vec!["printf 'from-home\\n'"]);
}

#[test]
fn missing_command_fails_with_error_message() {
    let conf = project(&command_entry("say", &print_command("available")));
    let (lines, _, code, errors) = drive(&conf, &["missing"], 0);
    assert!(lines.is_empty());
    assert_eq!(code, 1);
    assert!(errors[0].contains("no such command <missing>"));
}

#[test]
fn configured_command_exit_status_is_propagated() {
    let conf = project(&command_entry("fail", &exit_command(7)));
    let (lines, _, code, _) = drive(&conf, &["fail"], 7);
    assert_eq!(lines, vec!["exit 7"]);
    assert_eq!(code, 7);
}

#[test]
fn no_args_lists_commands_with_desc_and_alias() {
    let conf = project(&format!(
        "{}\n[test]\ncmd = {}\ndesc = \"Run all tests\"\n\n[alias]\nt = \"test\"\n",
        command_entry("lint", &print_command("linting")),
        toml_string("cargo test"),
    ));
    match parse_args(&strings(&[])).unwrap() {
        Invocation::Run { name, .. } => assert!(name.is_none()),
        _ => panic!("expected a run without a name"),
    }
    let out = list_lines(&conf).join("\n");
    assert!(out.contains("lint"), "stdout: {out}");
    assert!(out.contains("test"), "stdout: {out}");
    assert!(out.contains("Run all tests"), "stdout: {out}");
    assert!(out.contains("-> test"), "stdout: {out}");
}

#[test]
fn list_flag_lists_commands() {
    let conf = project(&command_entry("say", &print_command("hi")));
    assert!(matches!(
        parse_args(&strings(&["--list"])).unwrap(),
        Invocation::List { auto_detect: true }
    ));
    assert!(list_lines(&conf).join("\n").contains("say"));
}

#[test]
fn extra_args_are_appended_to_the_command() {
    let conf = project(&command_entry("echo", "printf '%s\\n'"));
    let (lines, _, code, _) = drive(&conf, &["echo", "hello", "world"], 0);
    assert_eq!(code, 0);
    assert_eq!(lines, vec!["printf '%s\\n' hello world"]);
}

#[test]
fn args_placeholder_is_replaced() {
    let conf = project(&command_entry("greet", "printf 'hi <%s>\\n' {{args}}"));
    let (lines, _, _, _) = drive(&conf, &["greet", "bob"], 0);
    assert_eq!(lines, vec!["printf 'hi <%s>\\n' bob"]);
}

#[test]
fn args_with_spaces_are_quoted() {
    let conf = project(&command_entry("echo", "printf '<%s>\\n'"));
    let (lines, _, _, _) = drive(&conf, &["echo", "two words"], 0);
    assert_eq!(lines, vec!["printf '<%s>\\n' 'two words'"]);
}

#[test]
fn dry_run_prints_without_executing() {
    let conf = project(&command_entry("mk", &append_command("out.txt", "made")));
    let (lines, printed, code, _) = drive(&conf, &["-n", "mk"], 1);
    assert_eq!(code, 0);
    assert!(lines[0].contains("out.txt"));
    assert_eq!(printed, vec![true]);
}

#[test]
fn alias_runs_target_command() {
    let conf = project(&format!(
        "{}\n[alias]\nhi = \"say\"\n",
        command_entry("say", &print_command("via-alias")),
    ));
    let (lines, _, code, _) = drive(&conf, &["hi"], 0);
    assert_eq!(code, 0);
    assert_eq!(lines, vec!["printf 'via-alias\\n'"]);
}

#[test]
fn alias_cycle_fails_with_error() {
    let conf = project("[alias]\na = \"b\"\nb = \"a\"\n");
    let (lines, _, code, errors) = drive(&conf, &["a"], 0);
    assert!(lines.is_empty());
    assert_eq!(code, 1);
    assert!(errors[0].contains("alias chain too long"));
}

#[test]
fn sequence_runs_steps_in_order() {
    let conf = project(&format!(
        "{}{}{}",
        command_entry("a", &append_command("out.txt", "a")),
        command_entry("b", &append_command("out.txt", "b")),
        "ci = [\"a\", \"b\"]\n",
    ));
    let (lines, _, code, _) = drive(&conf, &["ci"], 0);
    assert_eq!(code, 0);
    assert_eq!(
        lines,
        vec!["printf 'a\\n' >> out.txt", "printf 'b\\n' >> out.txt"]
    );
}

#[test]
fn sequence_stops_on_first_failure() {
    let conf = project(&format!(
        "{}{}{}",
        command_entry("bad", &exit_command(3)),
        command_entry("b", &append_command("out.txt", "b")),
        "ci = [\"bad\", \"b\"]\n",
    ));
    let (lines, _, code, _) = drive(&conf, &["ci"], 3);
    assert_eq!(code, 3);
    assert_eq!(lines, vec!["exit 3"]);
}

#[test]
fn sequence_rejects_extra_args() {
    let conf = project(&format!(
        "{}{}",
        command_entry("a", &print_command("a")),
        "ci = [\"a\"]\n",
    ));
    let (lines, _, code, errors) = drive(&conf, &["ci", "extra"], 0);
    assert!(lines.is_empty());
    assert_eq!(code, 1);
    assert!(errors[0].contains("sequence"));
}

#[test]
fn command_env_is_applied() {
    let conf = project(&format!(
        "[e]\ncmd = {}\n\n[e.env]\nX_TEST_VAR = \"from-env\"\n",
        toml_string("printf '%s\\n' \"$X_TEST_VAR\""),
    ));
    let e = conf.commands.get("e").unwrap();
    assert_eq!(e.env.get("X_TEST_VAR").map(String::as_str), Some("from-env"));
}

#[test]
fn command_cwd_is_relative_to_config_file() {
    let conf = project("[mk]\ncmd = \"printf 'x\\n' > marker.txt\"\ncwd = \"sub\"\n");
    let mk = conf.commands.get("mk").unwrap();
    assert_eq!(mk.cwd.as_deref(), Some("sub"));
    assert_eq!(mk.base_dir.as_deref(), Some("/proj"));
}

#[test]
fn confirm_aborts_without_approval() {
    let conf = project(&format!(
        "[mk]\ncmd = {}\nconfirm = true\n",
        toml_string(&append_command("out.txt", "made")),
    ));
    let (_, action) = Runner::start(ShellKind::Posix, Opts::default(), "mk", &vec![], &conf);
    match action {
        Action::Run(step) => assert!(step.ask),
        _ => panic!("expected a command to run"),
    }
    assert!(!is_confirmation(""));
}

#[test]
fn confirm_runs_after_approval() {
    assert!(is_confirmation("y\n"));
}

#[test]
fn show_prints_full_definition() {
    let conf = project("[test]\ncmd = \"cargo test\"\ndesc = \"Run tests\"\n");
    match parse_args(&strings(&["--show", "test"])).unwrap() {
        Invocation::Show { command, .. } => assert_eq!(command, "test"),
        _ => panic!("expected show"),
    }
    let out = show_lines("test", &conf).unwrap().join("\n");
    assert!(out.contains("cmd:     cargo test"), "stdout: {out}");
    assert!(out.contains("desc:    Run tests"), "stdout: {out}");
}

#[test]
fn comp_commands_lists_names() {
    let conf = project(&format!(
        "{}\n[alias]\nt = \"say\"\n",
        command_entry("say", &print_command("hi")),
    ));
    assert!(matches!(
        parse_args(&strings(&["--comp-commands"])).unwrap(),
        Invocation::CompCommands { .. }
    ));
    assert_eq!(command_names(&conf), vec!["say", "t"]);
}

#[test]
fn sequence_with_kind_is_recorded() {
    let conf = project("a = \"true\"\nci = [\"a\"]\n");
    assert!(matches!(
        conf.commands.get("ci").map(|c| &c.kind),
        Some(CommandKind::Sequence(_))
    ));
}
