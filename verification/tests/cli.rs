use cargo_x::cli::{cli_args, completions, parse_args, Invocation};

fn strings(args: &[&str]) -> Vec<String> {
    args.iter().map(|a| a.to_string()).collect()
}

#[test]
fn cargo_subcommand_form_skips_the_extra_x_arg() {
    assert_eq!(
        cli_args(&strings(&["/bin/cargo-x", "x", "test"]), "cargo-x"),
        vec!["test"]
    );
    assert_eq!(
        cli_args(&strings(&["/bin/x", "x", "test"]), "cargo-x"),
        vec!["x", "test"]
    );
    assert!(cli_args(&strings(&["cargo-x"]), "cargo-x").is_empty());
}

#[test]
fn command_and_arguments() {
    match parse_args(&strings(&["-n", "test", "--", "--nocapture", "-q"])).unwrap() {
        Invocation::Run { name, args, opts, watch, auto_detect } => {
            assert_eq!(name.as_deref(), Some("test"));
            assert_eq!(args, vec!["--nocapture", "-q"]);
            assert!(opts.dry_run);
            assert!(!opts.quiet);
            assert!(!watch);
            assert!(auto_detect);
        }
        _ => panic!("expected a run"),
    }
}

#[test]
fn separator_names_the_command() {
    match parse_args(&strings(&["-q", "--no-auto", "--", "-weird", "a"])).unwrap() {
        Invocation::Run { name, args, opts, auto_detect, .. } => {
            assert_eq!(name.as_deref(), Some("-weird"));
            assert_eq!(args, vec!["a"]);
            assert!(opts.quiet);
            assert!(!auto_detect);
        }
        _ => panic!("expected a run"),
    }
}

#[test]
fn no_command_lists() {
    match parse_args(&strings(&[])).unwrap() {
        Invocation::Run { name, args, .. } => {
            assert!(name.is_none());
            assert!(args.is_empty());
        }
        _ => panic!("expected a run"),
    }
}

#[test]
fn options_that_act_at_once() {
    assert!(matches!(parse_args(&strings(&["-h", "--bogus"])).unwrap(), Invocation::Help));
    assert!(matches!(parse_args(&strings(&["--version"])).unwrap(), Invocation::Version));
    assert!(matches!(parse_args(&strings(&["--init"])).unwrap(), Invocation::Init));
    assert!(matches!(
        parse_args(&strings(&["--no-auto", "-l"])).unwrap(),
        Invocation::List { auto_detect: false }
    ));
    match parse_args(&strings(&["--show", "test"])).unwrap() {
        Invocation::Show { command, auto_detect } => {
            assert_eq!(command, "test");
            assert!(auto_detect);
        }
        _ => panic!("expected show"),
    }
    match parse_args(&strings(&["--completions", "zsh"])).unwrap() {
        Invocation::Completions { shell } => assert_eq!(shell, "zsh"),
        _ => panic!("expected completions"),
    }
}

#[test]
fn unknown_option_fails() {
    assert_eq!(parse_args(&strings(&["--nope"])).err().unwrap(), "unknown option `--nope`");
    assert!(matches!(
        parse_args(&strings(&["-"])).unwrap(),
        Invocation::Run { .. }
    ));
}

#[test]
fn options_need_their_values() {
    assert_eq!(
        parse_args(&strings(&["-s"])).err().unwrap(),
        "--show needs a command name"
    );
    assert_eq!(
        parse_args(&strings(&["--completions"])).err().unwrap(),
        "--completions needs a shell: bash|zsh|fish"
    );
}

#[test]
fn completions_print_script() {
    assert!(completions("bash").unwrap().contains("complete -F _x"));
    assert!(completions("zsh").unwrap().starts_with("#compdef x cargo-x"));
    assert!(completions("fish").unwrap().contains("complete -c x"));
    assert_eq!(
        completions("tcsh").err().unwrap(),
        "unsupported shell `tcsh` (expected bash, zsh, or fish)"
    );
}
