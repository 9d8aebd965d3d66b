use id_migrate::convert::{
    convert_plugins, convert_worlds, parse_option, plan_plugin_root, plan_world_root,
    scan_plugins, scan_worlds, Child, ConvertError, ConvertOption, Probe, RootRun,
};
use id_migrate::idmap::IdMap;
use id_migrate::model::{Action, Kind, Node};
use id_migrate::names::{renamed_file_exec, stem_of};
use id_migrate::passes::{rename_all_dir, rename_all_files_in_dir, rename_all_text, Outcome};
use id_migrate::text::{contains_exec, replace_exec};
use id_migrate::uuid::{name_uuid_from_bytes, uuid_from_digest};

fn chars(s: &str) -> Vec<char> {
    s.chars().collect()
}

fn text(v: &[char]) -> String {
    v.iter().collect()
}

fn path(s: &str) -> Vec<String> {
    s.split('/').map(String::from).collect()
}

fn dir(p: &str) -> Node {
    Node { path: path(p), kind: Kind::Dir }
}

fn txt(p: &str, body: &str) -> Node {
    Node { path: path(p), kind: Kind::TextFile(chars(body)) }
}

fn bin(p: &str) -> Node {
    Node { path: path(p), kind: Kind::BinaryFile }
}

fn map(pairs: &[(&str, &str)]) -> IdMap {
    let mut m = IdMap::new();
    for (k, v) in pairs {
        m.insert(k.to_string(), v.to_string());
    }
    m
}

fn paths(o: &Outcome) -> Vec<String> {
    o.records().iter().map(|p| p.join("/")).collect()
}

fn node_paths(o: &Outcome) -> Vec<String> {
    o.nodes.iter().map(|n| n.path.join("/")).collect()
}

#[test]
fn stem_rename_keeps_extension() {
    let m = map(&[("Steve", "1234-uuid")]);
    let o = rename_all_files_in_dir(&vec![bin("Steve.dat"), bin("Steve")], &m);
    assert!(!o.failed);
    assert_eq!(paths(&o), vec!["1234-uuid.dat", "1234-uuid"]);
    assert_eq!(node_paths(&o), vec!["1234-uuid.dat", "1234-uuid"]);
    match &o.actions[0] {
        Action::Rename { from, to } => {
            assert_eq!(from.join("/"), "Steve.dat");
            assert_eq!(to.join("/"), "1234-uuid.dat");
        }
        Action::Write { .. } => panic!("a rename was expected"),
    }
}

#[test]
fn stem_rename_only_on_exact_match() {
    let m = map(&[("Steve", "1234-uuid")]);
    let nodes = vec![
        bin("Steven.dat"),
        bin("Steve.tar.gz"),
        bin("xSteve.dat"),
        bin(".Steve"),
        txt("notes.txt", "Steve"),
    ];
    let o = rename_all_files_in_dir(&nodes, &m);
    assert!(!o.failed);
    assert!(o.actions.is_empty());
    assert_eq!(
        node_paths(&o),
        vec!["Steven.dat", "Steve.tar.gz", "xSteve.dat", ".Steve", "notes.txt"]
    );
}

#[test]
fn stem_rename_leaves_directories_and_goes_into_them() {
    let m = map(&[("Steve", "abc")]);
    let nodes = vec![dir("Steve"), bin("Steve/Steve.json")];
    let o = rename_all_files_in_dir(&nodes, &m);
    assert_eq!(paths(&o), vec!["Steve/abc.json"]);
    assert_eq!(node_paths(&o), vec!["Steve", "Steve/abc.json"]);
}

#[test]
fn stem_and_extension_of_names() {
    assert_eq!(stem_of("Steve.dat"), "Steve");
    assert_eq!(stem_of("a.tar.gz"), "a.tar");
    assert_eq!(stem_of(".hidden"), ".hidden");
    assert_eq!(stem_of("plain"), "plain");
    assert_eq!(stem_of(".."), "..");
    let m = map(&[("Steve", "u")]);
    assert_eq!(renamed_file_exec("Steve.", &m), Some("u.".to_string()));
    assert_eq!(renamed_file_exec("Alex.dat", &m), None);
}

#[test]
fn stem_rename_stops_at_unlistable_directory() {
    let m = map(&[("Steve", "u")]);
    let nodes = vec![
        bin("Steve.dat"),
        Node { path: path("locked"), kind: Kind::UnlistableDir },
        bin("Steve.json"),
    ];
    let o = rename_all_files_in_dir(&nodes, &m);
    assert!(o.failed);
    assert_eq!(paths(&o), vec!["u.dat"]);
    assert!(o.nodes.is_empty());
}

#[test]
fn directory_rename_then_recurse() {
    let m = map(&[("Steve", "NewName")]);
    let nodes = vec![dir("Steve"), txt("Steve/file.txt", "hello")];
    let o = rename_all_dir(&nodes, &m);
    assert!(!o.failed);
    assert_eq!(paths(&o), vec!["NewName"]);
    assert_eq!(node_paths(&o), vec!["NewName", "NewName/file.txt"]);
    assert!(!node_paths(&o).contains(&"Steve".to_string()));
}

#[test]
fn directory_rename_nested_matches() {
    let m = map(&[("Steve", "S2"), ("Alex", "A2")]);
    let nodes = vec![
        dir("Steve"),
        dir("Steve/inner"),
        dir("Steve/inner/Alex"),
        bin("Steve/inner/Alex/Steve"),
    ];
    let o = rename_all_dir(&nodes, &m);
    assert_eq!(paths(&o), vec!["S2", "S2/inner/A2"]);
    match &o.actions[1] {
        Action::Rename { from, to } => {
            assert_eq!(from.join("/"), "S2/inner/Alex");
            assert_eq!(to.join("/"), "S2/inner/A2");
        }
        Action::Write { .. } => panic!("a rename was expected"),
    }
    assert_eq!(node_paths(&o)[3], "S2/inner/A2/Steve");
}

#[test]
fn directory_rename_renames_unlistable_then_fails() {
    let m = map(&[("Steve", "u")]);
    let nodes = vec![Node { path: path("Steve"), kind: Kind::UnlistableDir }, dir("Alex")];
    let o = rename_all_dir(&nodes, &m);
    assert!(o.failed);
    assert_eq!(paths(&o), vec!["u"]);
}

#[test]
fn text_without_keys_is_not_rewritten() {
    let m = map(&[("Steve", "u1")]);
    let o = rename_all_text(&vec![txt("a.txt", "nobody here")], &m);
    assert!(!o.failed);
    assert!(o.actions.is_empty());
    match &o.nodes[0].kind {
        Kind::TextFile(t) => assert_eq!(text(t), "nobody here"),
        _ => panic!("a text file was expected"),
    }
}

#[test]
fn text_substitution_replaces_every_key() {
    let m = map(&[("Steve", "u1"), ("Alex", "u2")]);
    let o = rename_all_text(&vec![dir("d"), txt("d/a.yml", "Steve and Alex, Steve")], &m);
    assert!(!o.failed);
    assert_eq!(paths(&o), vec!["d/a.yml"]);
    match &o.actions[0] {
        Action::Write { path, text: t } => {
            assert_eq!(path.join("/"), "d/a.yml");
            assert_eq!(text(t), "u1 and u2, u1");
            assert!(!text(t).contains("Steve"));
            assert!(!text(t).contains("Alex"));
        }
        Action::Rename { .. } => panic!("a write was expected"),
    }
}

#[test]
fn binary_files_are_skipped() {
    let m = map(&[("Steve", "u1")]);
    let o = rename_all_text(&vec![bin("Steve.dat"), txt("b.txt", "Steve")], &m);
    assert!(!o.failed);
    assert_eq!(paths(&o), vec!["b.txt"]);
    assert!(matches!(o.nodes[0].kind, Kind::BinaryFile));
}

#[test]
fn unreadable_file_stops_text_substitution() {
    let m = map(&[("Steve", "u1")]);
    let nodes = vec![
        txt("a.txt", "Steve"),
        Node { path: path("b.txt"), kind: Kind::UnreadableFile },
        txt("c.txt", "Steve"),
    ];
    let o = rename_all_text(&nodes, &m);
    assert!(o.failed);
    assert_eq!(paths(&o), vec!["a.txt"]);
}

#[test]
fn replacement_left_to_right_without_overlap() {
    assert_eq!(text(&replace_exec(&chars("aaa"), &chars("aa"), &chars("b"))), "ba");
    assert_eq!(text(&replace_exec(&chars("ab"), &chars(""), &chars("x"))), "xaxbx");
    assert_eq!(text(&replace_exec(&chars(""), &chars("k"), &chars("x"))), "");
    assert!(contains_exec(&chars("abc"), &chars("bc")));
    assert!(!contains_exec(&chars("abc"), &chars("cb")));
    assert!(contains_exec(&chars(""), &chars("")));
}

#[test]
fn world_scan_precision() {
    let children = vec![
        Child { name: "world1".to_string(), probe: Probe::Found { is_dir: true, has_marker: true } },
        Child { name: "notes.txt".to_string(), probe: Probe::Found { is_dir: false, has_marker: false } },
        Child { name: "plain".to_string(), probe: Probe::Found { is_dir: true, has_marker: false } },
        Child { name: "broken".to_string(), probe: Probe::Failed },
        Child { name: "world2".to_string(), probe: Probe::Found { is_dir: true, has_marker: true } },
    ];
    assert_eq!(scan_worlds(&children), vec!["world1", "world2"]);
    assert_eq!(scan_plugins(&children), vec!["world1", "plain", "world2"]);
}

#[test]
fn end_to_end_world() {
    let m = map(&[("Steve", "abcd-1234")]);
    let world = vec![bin("level.dat"), dir("playerdata"), bin("playerdata/Steve.dat")];
    let plan = plan_world_root(&world, &m);
    assert!(!plan.failed);
    let runs = vec![RootRun { root: path("world1"), records: plan.records(), ok: true }];
    let all: Vec<String> = convert_worlds(&runs).iter().map(|p| p.join("/")).collect();
    assert_eq!(all, vec!["world1/playerdata/abcd-1234.dat"]);
    let after = node_paths(&plan);
    assert!(after.contains(&"playerdata/abcd-1234.dat".to_string()));
    assert!(!after.contains(&"playerdata/Steve.dat".to_string()));
}

#[test]
fn world_plan_renames_files_then_directories() {
    let m = map(&[("Steve", "u")]);
    let world = vec![dir("Steve"), bin("Steve/Steve.dat"), txt("Steve.txt", "Steve")];
    let plan = plan_world_root(&world, &m);
    assert_eq!(paths(&plan), vec!["Steve/u.dat", "u.txt", "u"]);
    assert_eq!(node_paths(&plan), vec!["u", "u/u.dat", "u.txt"]);
}

#[test]
fn plugin_plan_runs_three_passes() {
    let m = map(&[("Steve", "u")]);
    let plugin = vec![dir("Steve"), txt("Steve/Steve.yml", "owner: Steve")];
    let plan = plan_plugin_root(&plugin, &m);
    assert!(!plan.failed);
    assert_eq!(paths(&plan), vec!["Steve/u.yml", "u", "u/u.yml"]);
}

#[test]
fn failed_world_roots_add_no_records() {
    let runs = vec![
        RootRun { root: path("w1"), records: vec![path("a")], ok: false },
        RootRun { root: path("w2"), records: vec![path("b"), path("c/d")], ok: true },
    ];
    let all: Vec<String> = convert_worlds(&runs).iter().map(|p| p.join("/")).collect();
    assert_eq!(all, vec!["w2/b", "w2/c/d"]);
}

#[test]
fn failed_plugin_root_fails_the_operation() {
    let ok = vec![
        RootRun { root: path("plugins/p1"), records: vec![path("a")], ok: true },
        RootRun { root: path("plugins/p2"), records: vec![], ok: true },
    ];
    let all: Vec<String> = convert_plugins(&ok).unwrap().iter().map(|p| p.join("/")).collect();
    assert_eq!(all, vec!["plugins/p1/a"]);
    let bad = vec![
        RootRun { root: path("plugins/p1"), records: vec![path("a")], ok: true },
        RootRun { root: path("plugins/p2"), records: vec![], ok: false },
        RootRun { root: path("plugins/p3"), records: vec![], ok: false },
    ];
    assert_eq!(convert_plugins(&bad), Err(1));
}

#[test]
fn options_are_parsed() {
    assert!(matches!(parse_option("world"), Ok(ConvertOption::World)));
    assert!(matches!(parse_option("plugin_text"), Ok(ConvertOption::PluginText)));
    match parse_option("worlds") {
        Err(e) => {
            assert!(matches!(&e, ConvertError::UnknownOption(s) if s == "worlds"));
            assert_eq!(e.message(), "Unknown convert option: worlds");
        }
        Ok(_) => panic!("an error was expected"),
    }
}

#[test]
fn identifier_map_insert_replaces() {
    let mut m = IdMap::new();
    m.insert("Steve".to_string(), "a".to_string());
    m.insert("Alex".to_string(), "b".to_string());
    m.insert("Steve".to_string(), "c".to_string());
    assert_eq!(m.len(), 2);
    assert_eq!(m.find(&"Steve".to_string()), Some(0));
    assert_eq!(m.value_at(0), "c");
    assert_eq!(m.find(&"Nobody".to_string()), None);
}

#[test]
fn name_based_uuid() {
    assert_eq!(
        name_uuid_from_bytes(b"OfflinePlayer:Steve".to_vec()),
        "5627dd98-e6be-3c21-b8a8-e92344183641"
    );
    assert_eq!(name_uuid_from_bytes(Vec::new()), "d41d8cd9-8f00-3204-a980-0998ecf8427e");
    assert_eq!(uuid_from_digest([0u8; 16]), "00000000-0000-3000-8000-000000000000");
    assert_eq!(uuid_from_digest([0xffu8; 16]), "ffffffff-ffff-3fff-bfff-ffffffffffff");
}
