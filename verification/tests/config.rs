use cargo_x::config::{
    get_from, is_reserved, load_cargo_metadata, load_files, load_x_file, parse_table, Command,
    CommandKind, ConfigError, ConfigFile, Xconf,
};
use cargo_x::config::{config_layers, load_layers, walked_files};
use cargo_x::data::Data;
use cargo_x::detect::{detect, ProjectFile};

fn file(path: &str, source: &str, text: &str) -> ConfigFile {
    ConfigFile {
        path: path.to_string(),
        source: source.to_string(),
        base_dir: Some("/base".to_string()),
        text: text.to_string(),
    }
}

fn home(text: &str) -> ConfigFile {
    file("/home/me/.x.toml", "~/.x.toml", text)
}

fn shell(cmd: &Command) -> Option<&str> {
    match &cmd.kind {
        CommandKind::Shell(cmd) => Some(cmd),
        CommandKind::Sequence(_) => None,
    }
}

fn message(r: Result<Xconf, ConfigError>) -> String {
    r.unwrap_err().message()
}

#[test]
fn merges_configs_with_local_precedence() {
    let h = home("shared = \"home\"\nhome = \"yes\"\n");
    let root = file("/root/x.toml", "/root/x.toml", "shared = \"local\"\nlocal = \"yes\"\n");
    let mut conf = get_from(Some(h), Some(root)).unwrap();
    load_cargo_metadata(
        "/root/Cargo.toml",
        "[package]\nname = \"demo\"\nversion = \"0.1.0\"\n\n[package.metadata.x]\nshared = \"cargo\"\ncargo = \"yes\"\n",
        "/root",
        &mut conf,
    )
    .unwrap();

    assert_eq!(conf.commands.get("shared").and_then(shell), Some("cargo"));
    assert_eq!(conf.commands.get("home").and_then(shell), Some("yes"));
    assert_eq!(conf.commands.get("local").and_then(shell), Some("yes"));
    assert_eq!(conf.commands.get("cargo").and_then(shell), Some("yes"));
    let cargo = conf.commands.get("cargo").unwrap();
    assert_eq!(cargo.source, "Cargo.toml [package.metadata.x]");
    assert_eq!(cargo.base_dir.as_deref(), Some("/root"));
    assert_eq!(conf.commands.get("home").unwrap().source, "~/.x.toml");
}

#[test]
fn rejects_reserved_x_command() {
    let err = message(get_from(Some(home("x = \"cargo test\"\n")), None));
    assert!(err.contains("command key `x` is reserved"));
    assert_eq!(err, "command key `x` is reserved (~/.x.toml)");
}

#[test]
fn parses_detailed_command() {
    let text = "[test]\ncmd = \"cargo test\"\ndesc = \"Run tests\"\nconfirm = true\ncwd = \"sub\"\n\n[test.env]\nRUST_LOG = \"debug\"\n";
    let conf = get_from(Some(home(text)), None).unwrap();
    let cmd = conf.commands.get("test").unwrap();

    assert_eq!(shell(cmd), Some("cargo test"));
    assert_eq!(cmd.desc.as_deref(), Some("Run tests"));
    assert!(cmd.confirm);
    assert_eq!(cmd.cwd.as_deref(), Some("sub"));
    assert_eq!(cmd.env.get("RUST_LOG").map(String::as_str), Some("debug"));
    assert_eq!(cmd.base_dir.as_deref(), Some("/base"));
}

#[test]
fn parses_sequence_and_alias() {
    let text = "lint = \"cargo clippy\"\ntest = \"cargo test\"\nci = [\"lint\", \"test\"]\n\n[alias]\nt = \"test\"\n";
    let conf = get_from(Some(home(text)), None).unwrap();

    match &conf.commands.get("ci").unwrap().kind {
        CommandKind::Sequence(steps) => assert_eq!(steps, &vec!["lint", "test"]),
        CommandKind::Shell(_) => panic!("expected a sequence"),
    }
    assert_eq!(
        conf.aliases.get("t").map(|a| a.target.as_str()),
        Some("test")
    );
    assert_eq!(conf.aliases.get("t").unwrap().source, "~/.x.toml");
}

#[test]
fn rejects_detailed_without_cmd_or_seq() {
    let err = message(get_from(Some(home("[bad]\ndesc = \"nothing to run\"\n")), None));
    assert!(err.contains("exactly one of `cmd` or `seq`"));
}

#[test]
fn rejects_detailed_with_both_cmd_and_seq() {
    let err = message(get_from(
        Some(home("[bad]\ncmd = \"a\"\nseq = [\"b\"]\n")),
        None,
    ));
    assert_eq!(
        err,
        "command `bad` in ~/.x.toml needs exactly one of `cmd` or `seq`"
    );
}

#[test]
fn rejects_unknown_detailed_field() {
    let err = message(get_from(Some(home("[bad]\ncmdd = \"typo\"\n")), None));
    assert!(err.contains("invalid command `bad`"));
    assert_eq!(err, "invalid command `bad` in ~/.x.toml");
}

#[test]
fn rejects_empty_sequences() {
    let err = message(get_from(Some(home("ci = []\n")), None));
    assert_eq!(err, "command `ci` in ~/.x.toml is an empty sequence");
    let err = message(get_from(Some(home("[ci]\nseq = []\n")), None));
    assert_eq!(err, "command `ci` in ~/.x.toml is an empty sequence");
}

#[test]
fn rejects_bad_alias_table_and_reserved_alias() {
    let err = message(get_from(Some(home("alias = \"t\"\n")), None));
    assert_eq!(err, "invalid [alias] table in ~/.x.toml");
    let err = message(get_from(Some(home("[alias]\nn = 1\n")), None));
    assert_eq!(err, "invalid [alias] table in ~/.x.toml");
    let err = message(get_from(Some(home("[alias]\nx = \"test\"\n")), None));
    assert_eq!(err, "command key `x` is reserved (~/.x.toml)");
}

#[test]
fn rejects_wrongly_typed_values() {
    assert!(get_from(Some(home("n = 1\n")), None).is_err());
    assert!(get_from(Some(home("l = [\"a\", 1]\n")), None).is_err());
    assert!(get_from(Some(home("[t]\ncmd = \"a\"\nconfirm = \"yes\"\n")), None).is_err());
    assert!(get_from(Some(home("[t]\ncmd = \"a\"\nenv = { K = 1 }\n")), None).is_err());
}

#[test]
fn date_time_values_read_as_text() {
    let conf = get_from(Some(home("stamp = 1979-05-27\n")), None).unwrap();
    assert_eq!(conf.commands.get("stamp").and_then(shell), Some("1979-05-27"));
}

#[test]
fn reports_toml_syntax_errors_with_the_path() {
    let err = message(get_from(Some(home("this is = = not toml")), None));
    assert_eq!(err, "failed to parse /home/me/.x.toml");
}

#[test]
fn project_file_overrides_home_file() {
    let files = vec![
        home("t = \"one\"\n"),
        file("/p/x.toml", "/p/x.toml", "t = \"two\"\n"),
    ];
    let mut conf = Xconf::new();
    load_files(&files, &mut conf).unwrap();
    assert_eq!(conf.commands.get("t").and_then(shell), Some("two"));
    assert_eq!(conf.commands.get("t").unwrap().source, "/p/x.toml");
}

#[test]
fn manifest_without_metadata_adds_nothing() {
    let mut conf = Xconf::new();
    load_cargo_metadata("/r/Cargo.toml", "[package]\nname = \"a\"\n", "/r", &mut conf).unwrap();
    assert!(conf.is_empty());
    let mut conf = Xconf::new();
    load_cargo_metadata("/r/Cargo.toml", "", "/r", &mut conf).unwrap();
    assert!(conf.is_empty());
}

#[test]
fn manifest_with_bad_shapes_fails_to_parse() {
    let mut conf = Xconf::new();
    let err = load_cargo_metadata("/r/Cargo.toml", "package = 1\n", "/r", &mut conf).unwrap_err();
    assert_eq!(err.message(), "failed to parse /r/Cargo.toml");
    let err = load_cargo_metadata(
        "/r/Cargo.toml",
        "[package.metadata]\nx = \"no\"\n",
        "/r",
        &mut conf,
    )
    .unwrap_err();
    assert_eq!(err.message(), "failed to parse /r/Cargo.toml");
}

#[test]
fn later_error_leaves_earlier_commands() {
    let mut conf = Xconf::new();
    let f = home("a = \"1\"\nz = 2\n");
    let err = load_x_file(&f, &mut conf).unwrap_err();
    assert_eq!(err.message(), "invalid command `z` in ~/.x.toml");
    assert_eq!(conf.commands.get("a").and_then(shell), Some("1"));
}

#[test]
fn parse_table_reads_entries_in_order() {
    let table = vec![
        ("t".to_string(), Data::Str("first".to_string())),
        ("t".to_string(), Data::Str("second".to_string())),
    ];
    let mut conf = Xconf::new();
    parse_table(&table, "src", &None, &mut conf).unwrap();
    assert_eq!(conf.commands.get("t").and_then(shell), Some("second"));
    assert_eq!(conf.commands.get("t").unwrap().base_dir, None);
}

#[test]
fn reserved_names() {
    assert!(is_reserved("x"));
    assert!(is_reserved("alias"));
    assert!(!is_reserved("X"));
    assert!(!is_reserved("aliases"));
}

#[test]
fn manifest_document_applied() {
    let x = Data::Table(vec![("t".to_string(), Data::Str("cargo test".to_string()))]);
    let metadata = Data::Table(vec![("x".to_string(), x)]);
    let package = Data::Table(vec![
        ("name".to_string(), Data::Str("p".to_string())),
        ("metadata".to_string(), metadata),
    ]);
    let doc = vec![("package".to_string(), package)];
    let mut conf = Xconf::new();
    cargo_x::config::apply_manifest("/r/Cargo.toml", &doc, "/r", &mut conf).unwrap();
    let t = conf.commands.get("t").unwrap();
    assert_eq!(shell(t), Some("cargo test"));
    assert_eq!(t.source, "Cargo.toml [package.metadata.x]");
    assert_eq!(t.base_dir.as_deref(), Some("/r"));

    let twice = vec![
        ("package".to_string(), Data::Table(vec![])),
        ("package".to_string(), Data::Table(vec![])),
    ];
    let err = cargo_x::config::apply_manifest("/r/Cargo.toml", &twice, "/r", &mut Xconf::new())
        .unwrap_err();
    assert_eq!(err.message(), "failed to parse /r/Cargo.toml");
}

#[test]
fn walked_files_stop_at_the_root_nearest_last() {
    let ancestors = vec![
        ("/p/a/b".to_string(), Some("b")),
        ("/p/a".to_string(), None),
        ("/p/x".to_string(), Some("x")),
        ("/p".to_string(), Some("root")),
        ("/".to_string(), Some("top")),
    ];
    assert_eq!(walked_files(ancestors.clone(), Some("/p")), vec!["x", "b"]);
    assert_eq!(walked_files(ancestors, None), vec!["top", "root", "x", "b"]);
    let at_root = vec![("/p".to_string(), Some("root"))];
    assert!(walked_files(at_root, Some("/p")).is_empty());
}

#[test]
fn layers_in_precedence_order() {
    let detected = detect(Some("/p"), "/p/a", &Vec::<ProjectFile>::new());
    assert!(detected.commands.get("test").is_some());
    let walked = vec![
        file("/p/a/x.toml", "/p/a/x.toml", "near = \"walked\"\nboth = \"walked\"\n"),
    ];
    let files = config_layers(
        Some(home("test = \"home\"\nhome = \"home\"\nboth = \"home\"\nm = \"home\"\n")),
        Some(file("/p/x.toml", "/p/x.toml", "home = \"root\"\nboth = \"root\"\n")),
        walked,
    );
    assert_eq!(files.len(), 3);
    assert_eq!(files[0].source, "~/.x.toml");
    assert_eq!(files[2].source, "/p/a/x.toml");
    let manifest = Some((
        "/p/Cargo.toml".to_string(),
        "[package.metadata.x]\nm = \"manifest\"\n".to_string(),
        "/p".to_string(),
    ));
    let conf = load_layers(detected, &files, manifest).unwrap();
    assert_eq!(conf.commands.get("test").and_then(shell), Some("home"));
    assert_eq!(conf.commands.get("home").and_then(shell), Some("root"));
    assert_eq!(conf.commands.get("both").and_then(shell), Some("walked"));
    assert_eq!(conf.commands.get("near").and_then(shell), Some("walked"));
    assert_eq!(conf.commands.get("m").and_then(shell), Some("manifest"));
    assert_eq!(conf.commands.get("build").and_then(shell), Some("cargo build {{args}}"));

    let bad = Some(("/p/Cargo.toml".to_string(), "= nope".to_string(), "/p".to_string()));
    let err = load_layers(Xconf::new(), &vec![], bad).unwrap_err();
    assert_eq!(err.message(), "failed to parse /p/Cargo.toml");
    let err = load_layers(Xconf::new(), &vec![home("x = \"no\"\n")], None).unwrap_err();
    assert_eq!(err.message(), "command key `x` is reserved (~/.x.toml)");
}
