use cargo_x::config::{get_from, ConfigFile, Xconf};
use cargo_x::handle::{
    command_names, is_confirmation, list_lines, resolve, show_lines, Action, Opts, Runner,
    ShellKind,
};

fn conf_of(text: &str) -> Xconf {
    let f = ConfigFile {
        path: "/p/x.toml".to_string(),
        source: "./x.toml".to_string(),
        base_dir: Some("/p".to_string()),
        text: text.to_string(),
    };
    get_from(Some(f), None).unwrap()
}

fn strings(args: &[&str]) -> Vec<String> {
    args.iter().map(|a| a.to_string()).collect()
}

fn run_line(a: &Action) -> Option<&str> {
    match a {
        Action::Run(step) => Some(step.command_line.as_str()),
        _ => None,
    }
}

fn finish(a: &Action) -> Option<(i32, Vec<String>)> {
    match a {
        Action::Finish { code, errors } => Some((*code, errors.clone())),
        _ => None,
    }
}

const CONF: &str = "\
lint = \"cargo clippy\"
test = \"cargo test\"
ci = [\"lint\", \"t\"]
all = [\"ci\", \"build\"]
build = \"cargo build\"

[deploy]
cmd = \"./deploy.sh\"
confirm = true

[alias]
t = \"test\"
";

#[test]
fn shell_command_runs_with_arguments() {
    let conf = conf_of(CONF);
    let (_, a) = Runner::start(
        ShellKind::Posix,
        Opts::default(),
        "build",
        &strings(&["--release"]),
        &conf,
    );
    match a {
        Action::Run(step) => {
            assert_eq!(step.name, "build");
            assert_eq!(step.command_line, "cargo build --release");
            assert!(!step.print_only);
            assert!(!step.ask);
            assert!(step.echo);
        }
        _ => panic!("expected a command to run"),
    }
}

#[test]
fn alias_runs_its_target() {
    let conf = conf_of(CONF);
    let (_, a) = Runner::start(ShellKind::Posix, Opts::default(), "t", &vec![], &conf);
    match a {
        Action::Run(step) => {
            assert_eq!(step.name, "test");
            assert_eq!(step.command_line, "cargo test");
        }
        _ => panic!("expected a command to run"),
    }
}

#[test]
fn dry_run_and_quiet_and_confirm() {
    let conf = conf_of(CONF);
    let dry = Opts { dry_run: true, quiet: false };
    let (_, a) = Runner::start(ShellKind::Posix, dry, "deploy", &vec![], &conf);
    match a {
        Action::Run(step) => {
            assert!(step.print_only);
            assert!(!step.ask);
            assert!(!step.echo);
        }
        _ => panic!("expected a command to run"),
    }
    let quiet = Opts { dry_run: false, quiet: true };
    let (_, a) = Runner::start(ShellKind::Posix, quiet, "deploy", &vec![], &conf);
    match a {
        Action::Run(step) => {
            assert!(!step.print_only);
            assert!(step.ask);
            assert!(!step.echo);
        }
        _ => panic!("expected a command to run"),
    }
}

#[test]
fn sequence_runs_steps_in_order_then_succeeds() {
    let conf = conf_of(CONF);
    let (mut r, a) = Runner::start(ShellKind::Posix, Opts::default(), "all", &vec![], &conf);
    assert!(matches!(a, Action::Continue));
    let a = r.advance(&conf);
    assert!(matches!(a, Action::Continue));
    let a = r.advance(&conf);
    assert_eq!(run_line(&a), Some("cargo clippy"));
    let a = r.resume(0, &conf);
    assert_eq!(run_line(&a), Some("cargo test"));
    let a = r.resume(0, &conf);
    assert_eq!(run_line(&a), Some("cargo build"));
    let a = r.resume(0, &conf);
    assert_eq!(finish(&a), Some((0, vec![])));
}

#[test]
fn sequence_stops_at_the_first_failure() {
    let conf = conf_of(CONF);
    let (mut r, _) = Runner::start(ShellKind::Posix, Opts::default(), "ci", &vec![], &conf);
    let a = r.advance(&conf);
    assert_eq!(run_line(&a), Some("cargo clippy"));
    let a = r.resume(101, &conf);
    assert_eq!(finish(&a), Some((101, vec![])));
}

#[test]
fn sequence_rejects_arguments() {
    let conf = conf_of(CONF);
    let (_, a) = Runner::start(ShellKind::Posix, Opts::default(), "ci", &strings(&["x"]), &conf);
    assert_eq!(
        finish(&a),
        Some((
            1,
            vec!["command <ci> is a sequence; extra arguments are not supported".to_string()]
        ))
    );
}

#[test]
fn missing_command_messages() {
    let conf = conf_of(CONF);
    let (_, a) = Runner::start(ShellKind::Posix, Opts::default(), "nope", &vec![], &conf);
    assert_eq!(
        finish(&a),
        Some((
            1,
            vec![
                "no such command <nope>".to_string(),
                "run `x --list` to see available commands".to_string()
            ]
        ))
    );
    let empty = Xconf::new();
    let (_, a) = Runner::start(ShellKind::Posix, Opts::default(), "nope", &vec![], &empty);
    assert_eq!(finish(&a), Some((1, vec!["no such command <nope>".to_string()])));
}

#[test]
fn missing_step_in_sequence_fails() {
    let conf = conf_of("ci = [\"gone\"]\n");
    let (mut r, _) = Runner::start(ShellKind::Posix, Opts::default(), "ci", &vec![], &conf);
    let a = r.advance(&conf);
    assert_eq!(finish(&a).map(|f| f.0), Some(1));
}

#[test]
fn alias_cycle_is_reported() {
    let conf = conf_of("[alias]\na = \"b\"\nb = \"a\"\n");
    assert_eq!(
        resolve("a", &conf),
        Err("alias chain too long (cycle?) at `a`".to_string())
    );
    let (_, a) = Runner::start(ShellKind::Posix, Opts::default(), "b", &vec![], &conf);
    assert_eq!(
        finish(&a),
        Some((1, vec!["alias chain too long (cycle?) at `b`".to_string()]))
    );
}

#[test]
fn resolve_follows_aliases() {
    let conf = conf_of(CONF);
    assert_eq!(resolve("t", &conf), Ok("test".to_string()));
    assert_eq!(resolve("build", &conf), Ok("build".to_string()));
    assert_eq!(resolve("unknown", &conf), Ok("unknown".to_string()));
}

#[test]
fn listing_lines() {
    let conf = conf_of(
        "b = \"cargo build\"\nci = [\"b\", \"t\"]\n\n[t]\ncmd = \"cargo test\"\ndesc = \"Run tests\"\n\n[alias]\nbt = \"b\"\n",
    );
    assert_eq!(
        list_lines(&conf),
        vec![
            "available commands:",
            "  b   cargo build  (./x.toml)",
            "  ci  seq: b, t  (./x.toml)",
            "  t   Run tests  (./x.toml)",
            "  bt  -> b  (./x.toml)",
        ]
    );
}

#[test]
fn listing_when_nothing_is_defined() {
    assert_eq!(
        list_lines(&Xconf::new()),
        vec![
            "no commands defined",
            "",
            "define commands in ~/.x.toml, ./x.toml, or [package.metadata.x] in Cargo.toml,",
            "or run `x --init` to create an example x.toml",
        ]
    );
}

#[test]
fn listing_shortens_long_commands() {
    let long = "x".repeat(70);
    let conf = conf_of(&format!("l = \"{long}\"\n"));
    let lines = list_lines(&conf);
    assert_eq!(lines[1], format!("  l  {}…  (./x.toml)", "x".repeat(59)));
}

#[test]
fn showing_a_command() {
    let conf = conf_of(
        "[t]\ncmd = \"cargo test\"\ndesc = \"Run tests\"\ncwd = \"sub\"\nconfirm = true\n\n[t.env]\nB = \"2\"\nA = \"1\"\n\n[alias]\ntt = \"t\"\n",
    );
    assert_eq!(
        show_lines("tt", &conf).unwrap(),
        vec![
            "name:    t",
            "source:  ./x.toml",
            "desc:    Run tests",
            "cmd:     cargo test",
            "cwd:     sub",
            "env:     A=1",
            "env:     B=2",
            "confirm: true",
        ]
    );
    assert_eq!(show_lines("nope", &conf), Err("no such command <nope>".to_string()));
}

#[test]
fn showing_a_sequence() {
    let conf = conf_of(CONF);
    assert_eq!(
        show_lines("ci", &conf).unwrap(),
        vec!["name:    ci", "source:  ./x.toml", "seq:     lint, t"]
    );
}

#[test]
fn completion_names() {
    let conf = conf_of(CONF);
    assert_eq!(
        command_names(&conf),
        vec!["all", "build", "ci", "deploy", "lint", "test", "t"]
    );
}

#[test]
fn confirmation_answers() {
    assert!(is_confirmation("y\n"));
    assert!(is_confirmation("  YeS  "));
    assert!(is_confirmation("Y"));
    assert!(!is_confirmation(""));
    assert!(!is_confirmation("no"));
    assert!(!is_confirmation("yess"));
    assert!(!is_confirmation("ye"));
}

#[test]
fn nested_sequence_goes_on_with_the_outer_steps() {
    let conf = conf_of("a = \"run a\"\nb = \"run b\"\nc = \"run c\"\ninner = [\"c\"]\nci = [\"a\", \"inner\", \"b\"]\n");
    let (mut r, a) = Runner::start(ShellKind::Posix, Opts::default(), "ci", &vec![], &conf);
    assert!(matches!(a, Action::Continue));
    let a = r.advance(&conf);
    assert_eq!(run_line(&a), Some("run a"));
    let a = r.resume(0, &conf);
    assert!(matches!(a, Action::Continue));
    let a = r.advance(&conf);
    assert_eq!(run_line(&a), Some("run c"));
    let a = r.resume(0, &conf);
    assert_eq!(run_line(&a), Some("run b"));
    let a = r.resume(0, &conf);
    assert_eq!(finish(&a), Some((0, vec![])));
}

#[test]
fn nested_failure_stops_the_outer_sequence() {
    let conf = conf_of("a = \"run a\"\nb = \"run b\"\ninner = [\"a\", \"gone\"]\nci = [\"inner\", \"b\"]\n");
    let (mut r, _) = Runner::start(ShellKind::Posix, Opts::default(), "ci", &vec![], &conf);
    let a = r.advance(&conf);
    assert!(matches!(a, Action::Continue));
    let a = r.advance(&conf);
    assert_eq!(run_line(&a), Some("run a"));
    let a = r.resume(0, &conf);
    assert_eq!(
        finish(&a),
        Some((
            1,
            vec![
                "no such command <gone>".to_string(),
                "run `x --list` to see available commands".to_string()
            ]
        ))
    );
}

#[test]
fn declining_a_confirmation_aborts() {
    let conf = conf_of(CONF);
    let (mut r, a) = Runner::start(ShellKind::Posix, Opts::default(), "deploy", &vec![], &conf);
    assert!(matches!(a, Action::Run(_)));
    let a = r.decline();
    assert_eq!(finish(&a), Some((1, vec!["aborted".to_string()])));
}
