use retort::context::{ContextEntry, ContextStage};
use retort::{calculate_final_context, FileMetadata, MessageMetadata};

fn files(paths: &[&str]) -> Vec<FileMetadata> {
    paths
        .iter()
        .map(|p| FileMetadata { path: p.to_string(), hash: String::new() })
        .collect()
}

fn inherited(rw: &[&str], ro: &[&str]) -> MessageMetadata {
    MessageMetadata { read_write_files: files(rw), read_only_files: files(ro) }
}

fn stage(rw: &[&str], ro: &[&str], dropped: &[&str]) -> ContextStage {
    ContextStage {
        name: "default".to_string(),
        read_write_files: rw.iter().map(|p| p.to_string()).collect(),
        read_only_files: ro.iter().map(|p| p.to_string()).collect(),
        dropped_files: dropped.iter().map(|p| p.to_string()).collect(),
    }
}

fn entries(i: &MessageMetadata, s: &ContextStage) -> Vec<(String, bool)> {
    calculate_final_context(i, s)
        .entries()
        .iter()
        .map(|e| (e.path.clone(), e.read_only))
        .collect()
}

fn pairs(list: &[(&str, bool)]) -> Vec<(String, bool)> {
    list.iter().map(|(p, b)| (p.to_string(), *b)).collect()
}

#[test]
fn empty_inputs_give_an_empty_context() {
    let c = calculate_final_context(&MessageMetadata::default(), &ContextStage::default());
    assert!(c.is_empty());
    assert_eq!(c.len(), 0);
    assert_eq!(c.get("a"), None);
}

#[test]
fn inherited_files_are_kept_and_come_in_the_order_of_their_paths() {
    let i = inherited(&["src/z.rs", "Cargo.toml"], &["docs/b.md", "README.md"]);
    let s = stage(&[], &[], &[]);
    assert_eq!(
        entries(&i, &s),
        pairs(&[
            ("Cargo.toml", false),
            ("README.md", true),
            ("docs/b.md", true),
            ("src/z.rs", false)
        ])
    );
}

#[test]
fn prepared_visibility_overrides_inherited_visibility() {
    let i = inherited(&["a", "b"], &["c"]);
    let s = stage(&["c", "d"], &["a"], &[]);
    let c = calculate_final_context(&i, &s);
    assert_eq!(c.get("a"), Some(true));
    assert_eq!(c.get("b"), Some(false));
    assert_eq!(c.get("c"), Some(false));
    assert_eq!(c.get("d"), Some(false));
    assert_eq!(c.len(), 4);
    assert_eq!(c.paths_with(false), vec!["b", "c", "d"]);
    assert_eq!(c.paths_with(true), vec!["a"]);
}

#[test]
fn dropped_file_is_not_inherited() {
    let i = inherited(&["a", "b"], &["c", "d"]);
    let s = stage(&[], &[], &["a", "c", "zzz"]);
    assert_eq!(entries(&i, &s), pairs(&[("b", false), ("d", true)]));
}

#[test]
fn dropping_an_absent_file_changes_nothing() {
    let i = inherited(&["a"], &["b"]);
    let mut s = stage(&["c"], &[], &[]);
    let before = entries(&i, &s);
    s.remove_file("not-there");
    assert_eq!(s.dropped_files, vec!["not-there"]);
    assert_eq!(entries(&i, &s), before);
}

#[test]
fn read_only_wins_where_one_origin_lists_a_path_twice() {
    let i = inherited(&["a"], &["a"]);
    assert_eq!(entries(&i, &stage(&[], &[], &[])), pairs(&[("a", true)]));
    let s = stage(&["b"], &["b"], &[]);
    assert_eq!(entries(&inherited(&[], &[]), &s), pairs(&[("b", true)]));
}

#[test]
fn paths_are_ordered_by_code_points() {
    let i = inherited(&["b", "B", "a/b", "a", "ab", "\u{e9}", "a-"], &[]);
    let got: Vec<String> =
        entries(&i, &stage(&[], &[], &[])).into_iter().map(|(p, _)| p).collect();
    let mut want: Vec<String> = got.clone();
    want.sort();
    assert_eq!(got, want);
    assert_eq!(got, vec!["B", "a", "a-", "a/b", "ab", "b", "\u{e9}"]);
}

#[test]
fn staging_moves_a_file_between_the_lists() {
    let mut s = stage(&[], &[], &[]);
    s.add_file("a", false);
    s.add_file("a", false);
    assert_eq!(s.read_write_files, vec!["a"]);
    s.add_file("a", true);
    assert!(s.read_write_files.is_empty());
    assert_eq!(s.read_only_files, vec!["a"]);
    s.remove_file("a");
    s.remove_file("a");
    assert!(s.read_only_files.is_empty());
    assert_eq!(s.dropped_files, vec!["a"]);
    s.add_file("a", false);
    assert!(s.dropped_files.is_empty());
    assert_eq!(s.read_write_files, vec!["a"]);
    s.add_file("b", true);
    s.remove_file("c");
    s.clear();
    assert_eq!(s, stage(&[], &[], &[]));
}

#[test]
fn entries_are_plain_values() {
    let e = ContextEntry { path: "a".to_string(), read_only: true };
    assert_eq!(e.clone(), e);
    let c = calculate_final_context(&inherited(&[], &["a"]), &stage(&[], &[], &[]));
    assert_eq!(c.entries(), &vec![e]);
}
