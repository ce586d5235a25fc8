use swift_precompiled::alias::AliasTable;
use swift_precompiled::config::{AliasEntry, Config};
use swift_precompiled::paths::{anchor, resolve};

fn some(path: &str) -> Option<String> {
    Some(path.to_string())
}

#[test]
fn resolve_normalizes_an_absolute_reference() {
    assert_eq!(resolve("/assets/logo.png", "/project/src/A.swift"), some("/assets/logo.png"));
    assert_eq!(resolve("/assets/./img/../logo.png", "/project/src/A.swift"), some("/assets/logo.png"));
    assert_eq!(resolve("/../a", "/project/src/A.swift"), some("/a"));
    assert_eq!(resolve("/a//b/", "/project/src/A.swift"), some("/a/b"));
}

#[test]
fn resolve_joins_a_relative_reference_to_the_directory_of_the_file() {
    assert_eq!(resolve("a.txt", "/project/src/A.swift"), some("/project/src/a.txt"));
    assert_eq!(resolve("./a.txt", "/project/src/A.swift"), some("/project/src/a.txt"));
    assert_eq!(resolve("../assets/a.txt", "/project/src/A.swift"), some("/project/assets/a.txt"));
    assert_eq!(resolve("../../../../a.txt", "/project/src/A.swift"), some("/a.txt"));
    assert_eq!(resolve("sub/dir/a.txt", "/A.swift"), some("/sub/dir/a.txt"));
}

#[test]
fn resolve_falls_back_on_the_file_itself_where_it_has_no_parent() {
    assert_eq!(resolve("a.txt", "/"), some("/a.txt"));
}

#[test]
fn resolve_gives_nothing_where_the_result_stays_relative() {
    assert_eq!(resolve("a.txt", "src/A.swift"), None);
    assert_eq!(resolve("a.txt", "A.swift"), None);
    assert_eq!(resolve("a.txt", ""), None);
    assert_eq!(resolve("/a.txt", "src/A.swift"), some("/a.txt"));
}

#[test]
fn anchor_makes_a_path_absolute_under_a_base() {
    assert_eq!(anchor("assets", "/root"), some("/root/assets"));
    assert_eq!(anchor("/elsewhere/assets/", "/root"), some("/elsewhere/assets"));
    assert_eq!(anchor("../shared", "/root/app"), some("/root/shared"));
    assert_eq!(anchor("", "/root/app"), some("/root/app"));
    assert_eq!(anchor("assets", "root"), None);
}

#[test]
fn alias_entry_target_is_relative_to_the_scanned_directory() {
    let alias = AliasEntry { token: "$Assets".to_string(), target_path: "assets".to_string() };
    assert_eq!(alias.target("/root"), some("/root/assets"));
    let absolute = AliasEntry { token: "@".to_string(), target_path: "/opt/./x".to_string() };
    assert_eq!(absolute.target("/root"), some("/opt/x"));
}

#[test]
fn alias_substitution_resolves_under_the_scanned_root() {
    let root = "/root";
    let alias = AliasEntry { token: "$Assets".to_string(), target_path: "assets".to_string() };
    let target = alias.target(root).unwrap();
    let mut table = AliasTable::new();
    table.add(&alias.token, &target, true);
    let substituted = table.substitute("$Assets/logo.png");
    assert_eq!(substituted, "/root/assets/logo.png");
    assert_eq!(resolve(&substituted, "/root/src/deep/A.swift"), some("/root/assets/logo.png"));
}

#[test]
fn an_alias_whose_target_is_absent_takes_no_part() {
    let mut table = AliasTable::new();
    table.add("$Assets", "/root/assets", false);
    assert_eq!(table.len(), 0);
    assert_eq!(table.substitute("$Assets/logo.png"), "$Assets/logo.png");
    assert_eq!(resolve("$Assets/logo.png", "/root/src/A.swift"), some("/root/src/$Assets/logo.png"));
}

#[test]
fn aliases_are_substituted_in_the_order_of_the_table() {
    let mut table = AliasTable::new();
    table.add("$A", "/a/$B", true);
    table.add("$B", "/b", true);
    assert_eq!(table.len(), 2);
    assert_eq!(table.substitute("$A/x"), "/a//b/x");
    let mut reversed = AliasTable::new();
    reversed.add("$B", "/b", true);
    reversed.add("$A", "/a/$B", true);
    assert_eq!(reversed.substitute("$A/x"), "/a/$B/x");
}

#[test]
fn an_alias_replaces_every_occurrence_of_its_token() {
    let mut table = AliasTable::new();
    table.add("~", "/home", true);
    assert_eq!(table.substitute("~/a/~"), "/home/a//home");
    assert_eq!(table.substitute("plain"), "plain");
    assert_eq!(AliasTable::new().substitute("~/a"), "~/a");
}

#[test]
fn the_default_configuration_is_empty_but_present() {
    let config = Config::default();
    assert_eq!(config.path_aliases, Some(Vec::new()));
    assert_eq!(config.dirs, Some(Vec::new()));
}
