use cargo_x::data::Data;
use cargo_x::config::CommandKind;
use cargo_x::detect::{
    detect, package_manager, parse_just_recipes, parse_make_targets, parse_taskfile_tasks,
    ProjectFile,
};

fn file(name: &str, text: &str) -> ProjectFile {
    ProjectFile {
        name: name.to_string(),
        text: Some(text.to_string()),
    }
}

fn shell(kind: &CommandKind) -> Option<&str> {
    match kind {
        CommandKind::Shell(cmd) => Some(cmd),
        CommandKind::Sequence(_) => None,
    }
}

#[test]
fn parses_make_targets() {
    let text = "\
# comment
.PHONY: test
VAR := value
BUILD_DIR = out

build: src/main.rs
\tcc -o out src/main.rs

test: ## run tests
\tcargo test

%.o: %.c
\tcc -c $<
";
    let targets = parse_make_targets(text);
    assert!(targets.contains(&"build".to_string()));
    assert!(targets.contains(&"test".to_string()));
    assert!(!targets.contains(&"VAR".to_string()));
    assert!(!targets.contains(&"BUILD_DIR".to_string()));
    assert!(!targets.iter().any(|t| t.starts_with('.')));
    assert!(!targets.iter().any(|t| t.contains('%')));
}

#[test]
fn parses_just_recipes() {
    let text = "\
set shell := [\"sh\", \"-c\"]

# run tests
test pattern=\"\":
    cargo test {{pattern}}

@lint:
    cargo clippy

build-all: build test
    echo done
";
    let recipes = parse_just_recipes(text);
    assert_eq!(recipes, vec!["build-all", "lint", "test"]);
}

#[test]
fn parses_taskfile_tasks() {
    let text = "\
version: '3'

tasks:
  build:
    cmds:
      - go build ./...
  test:
    deps: [build]
    cmds:
      - go test ./...

vars:
  FOO: bar
";
    let tasks = parse_taskfile_tasks(text);
    assert_eq!(tasks, vec!["build", "test"]);
}

#[test]
fn make_targets_are_sorted_and_unique() {
    let text = "zeta: a\nalpha:\nzeta: b\r\nmid-1:\n\tindented: no\n";
    assert_eq!(parse_make_targets(text), vec!["alpha", "mid-1", "zeta"]);
}

#[test]
fn make_target_names_are_trimmed() {
    assert_eq!(parse_make_targets("  x:\nname :\n"), vec!["name"]);
}

#[test]
fn make_double_colon_rule_is_a_target() {
    assert_eq!(parse_make_targets("rule:: dep\n"), vec!["rule"]);
    assert!(parse_make_targets("VAR := 1\nA:=b\n").is_empty());
}

#[test]
fn just_keywords_and_assignments_are_skipped() {
    let text = "alias b := build\nexport FOO := \"1\"\nimport 'x.just'\nmod sub\nbuild:\n";
    assert_eq!(parse_just_recipes(text), vec!["build"]);
}

#[test]
fn taskfile_section_ends_at_unindented_line() {
    let text = "tasks:\n\tfmt:\n  # note\n\n  lint:\nother:\n  nope:\ntasks:\n  again:\n";
    assert_eq!(parse_taskfile_tasks(text), vec!["again", "fmt", "lint"]);
}

#[test]
fn bridges_package_json_scripts_with_npm() {
    let files = vec![file(
        "package.json",
        r#"{"scripts": {"build": "tsc", "dev": "vite"}}"#,
    )];
    let conf = detect(None, "/proj", &files);
    let build = conf.commands.get("build").unwrap();
    assert_eq!(shell(&build.kind), Some("npm run build -- {{args}}"));
    assert_eq!(build.source, "auto: package.json");
    assert_eq!(build.base_dir.as_deref(), Some("/proj"));
    assert!(conf.commands.contains_key("dev"));
}

#[test]
fn pnpm_lockfile_switches_package_manager() {
    let files = vec![
        file("package.json", r#"{"scripts": {"dev": "vite"}}"#),
        file("pnpm-lock.yaml", ""),
    ];
    let conf = detect(None, "/proj", &files);
    assert_eq!(
        conf.commands.get("dev").and_then(|c| shell(&c.kind)),
        Some("pnpm run dev {{args}}")
    );
}

#[test]
fn package_manager_follows_lockfiles() {
    assert_eq!(package_manager(&vec![]), "npm");
    assert_eq!(package_manager(&vec![file("yarn.lock", "")]), "yarn");
    assert_eq!(package_manager(&vec![file("bun.lock", "")]), "bun");
    assert_eq!(
        package_manager(&vec![file("bun.lockb", ""), file("pnpm-lock.yaml", "")]),
        "pnpm"
    );
}

#[test]
fn detects_cargo_commands_at_root() {
    let conf = detect(Some("/root"), "/root/sub", &vec![]);
    assert!(conf.commands.contains_key("build"));
    assert!(conf.commands.contains_key("test"));
    assert!(conf.commands.contains_key("clippy"));
    assert_eq!(
        conf.commands.get("test").map(|c| c.source.as_str()),
        Some("auto: cargo")
    );
    assert_eq!(
        conf.commands.get("release").and_then(|c| shell(&c.kind)),
        Some("cargo build --release")
    );
    assert_eq!(conf.commands.len(), 10);
}

#[test]
fn no_cargo_commands_outside_a_project() {
    let conf = detect(None, "/tmp", &vec![]);
    assert!(conf.is_empty());
}

#[test]
fn skips_reserved_script_names() {
    let files = vec![file("package.json", r#"{"scripts": {"x": "echo no", "alias": "no"}}"#)];
    let conf = detect(None, "/proj", &files);
    assert!(!conf.commands.contains_key("x"));
    assert!(!conf.commands.contains_key("alias"));
}

#[test]
fn first_readable_makefile_wins_and_later_tools_override() {
    let files = vec![
        ProjectFile {
            name: "Makefile".to_string(),
            text: None,
        },
        file("makefile", "build:\n"),
        file("GNUmakefile", "other:\n"),
        file("justfile", "build:\n"),
    ];
    let conf = detect(None, "/p", &files);
    assert!(!conf.commands.contains_key("other"));
    let build = conf.commands.get("build").unwrap();
    assert_eq!(shell(&build.kind), Some("just build {{args}}"));
    assert_eq!(build.source, "auto: just");
}

#[test]
fn invalid_package_json_is_ignored() {
    let files = vec![file("package.json", "{not json"), file("Taskfile.yml", "tasks:\n  t:\n")];
    let conf = detect(None, "/p", &files);
    assert_eq!(conf.commands.len(), 1);
    assert_eq!(
        conf.commands.get("t").and_then(|c| shell(&c.kind)),
        Some("task t {{args}}")
    );
}

#[test]
fn package_scripts_of_a_document() {
    let scripts = Data::Table(vec![
        ("build".to_string(), Data::Str("tsc".to_string())),
        ("dev".to_string(), Data::Str("vite".to_string())),
    ]);
    let doc = Data::Table(vec![
        ("name".to_string(), Data::Str("app".to_string())),
        ("scripts".to_string(), scripts),
    ]);
    assert_eq!(cargo_x::detect::package_scripts(&doc), vec!["build", "dev"]);
    let no_scripts = Data::Table(vec![("scripts".to_string(), Data::Str("x".to_string()))]);
    assert!(cargo_x::detect::package_scripts(&no_scripts).is_empty());
    assert!(cargo_x::detect::package_scripts(&Data::Other).is_empty());
}

#[test]
fn package_json_keys_come_in_name_order() {
    let files = vec![file("package.json", "{\"scripts\": {\"zz\": \"a\", \"aa\": \"b\"}}")];
    let conf = detect(None, "/w", &files);
    assert_eq!(conf.commands.key_at(0), "aa");
    assert_eq!(conf.commands.key_at(1), "zz");
    let bad = vec![file("package.json", "{not json")];
    assert!(detect(None, "/w", &bad).is_empty());
}
