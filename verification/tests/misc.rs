use std::collections::hash_map::DefaultHasher;
use std::hash::{Hash, Hasher};

use cargo_x::fingerprint::{fingerprint_in_order, fingerprint_inputs, is_skipped_dir, sort_hashes};
use cargo_x::meta::manifest_path;
use cargo_x::name_map::NameMap;
use cargo_x::parse::{conf, merge_into};

fn table(entries: &[(&str, &str)]) -> NameMap<String> {
    let mut m = NameMap::new();
    for (k, v) in entries {
        m.insert(k.to_string(), v.to_string());
    }
    m
}

#[test]
fn fingerprint_ignores_order() {
    let a = fingerprint_inputs(&vec![3, 1, 2]);
    let b = fingerprint_inputs(&vec![2, 3, 1]);
    assert_eq!(a, b);
}

#[test]
fn fingerprint_depends_on_the_hashes() {
    let a = fingerprint_inputs(&vec![1, 2, 3]);
    assert_ne!(a, fingerprint_inputs(&vec![1, 2, 3, 4]));
    assert_ne!(a, fingerprint_inputs(&vec![1, 2]));
    assert_eq!(a, fingerprint_inputs(&vec![1, 2, 3]));
}

#[test]
fn fingerprint_matches_hashing_sorted_numbers() {
    let mut hasher = DefaultHasher::new();
    for h in [5u64, 9, 40] {
        h.hash(&mut hasher);
    }
    assert_eq!(fingerprint_inputs(&vec![40, 5, 9]), hasher.finish());
    assert_eq!(fingerprint_inputs(&vec![]), DefaultHasher::new().finish());
}

#[test]
fn hashes_are_sorted() {
    assert_eq!(sort_hashes(&vec![9, 1, 5, 1]), vec![1, 1, 5, 9]);
    assert_eq!(sort_hashes(&vec![]), Vec::<u64>::new());
}

#[test]
fn skipped_directories() {
    assert!(is_skipped_dir(".git"));
    assert!(is_skipped_dir("target"));
    assert!(is_skipped_dir("node_modules"));
    assert!(is_skipped_dir(".x-cache"));
    assert!(!is_skipped_dir("src"));
    assert!(!is_skipped_dir("targets"));
}

#[test]
fn locate_project_output() {
    assert_eq!(
        manifest_path("/home/me/p/Cargo.toml\n"),
        Some("/home/me/p/Cargo.toml".to_string())
    );
    assert_eq!(manifest_path("  \n"), None);
    assert_eq!(manifest_path(""), None);
}

#[test]
fn later_tables_win() {
    let home = table(&[("a", "home"), ("b", "home")]);
    let local = table(&[("b", "local"), ("c", "local")]);
    let cargo = table(&[("c", "cargo")]);
    let r = conf(&home, &local, &cargo);
    assert_eq!(r.len(), 3);
    assert_eq!(r.get("a").map(String::as_str), Some("home"));
    assert_eq!(r.get("b").map(String::as_str), Some("local"));
    assert_eq!(r.get("c").map(String::as_str), Some("cargo"));
}

#[test]
fn merge_replaces_shared_names() {
    let mut dst = table(&[("a", "1"), ("b", "2")]);
    merge_into(&mut dst, &table(&[("b", "3")]));
    assert_eq!(dst.len(), 2);
    assert_eq!(dst.get("b").map(String::as_str), Some("3"));
}

#[test]
fn name_map_keeps_names_sorted_and_unique() {
    let mut m = table(&[("zeta", "1"), ("alpha", "2"), ("mid", "3")]);
    m.insert("alpha".to_string(), "4".to_string());
    assert_eq!(m.len(), 3);
    assert!(!m.is_empty());
    assert_eq!(m.key_at(0), "alpha");
    assert_eq!(m.key_at(1), "mid");
    assert_eq!(m.key_at(2), "zeta");
    assert_eq!(m.value_at(0), "4");
    assert!(m.contains_key("mid"));
    assert!(!m.contains_key("nope"));
    assert_eq!(m.get("nope"), None);
    assert!(NameMap::<String>::new().is_empty());
}

#[test]
fn fingerprint_in_either_byte_order() {
    let mut le = DefaultHasher::new();
    let mut be = DefaultHasher::new();
    for h in [5u64, 9, 40] {
        le.write(&h.to_le_bytes());
        be.write(&h.to_be_bytes());
    }
    assert_eq!(fingerprint_in_order(&vec![40, 5, 9], true), le.finish());
    assert_eq!(fingerprint_in_order(&vec![9, 40, 5], false), be.finish());
    assert_ne!(le.finish(), be.finish());
}
