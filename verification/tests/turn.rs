use retort::cli::{
    confirms, history_target, parent_source, use_stream, HistoryTarget, InvalidArguments,
    ParentSource, StageAction, StageArgs,
};
use retort::config::Config;
use retort::db::{self, HistoryMessage, MessageStore, StoreError};
use retort::llm::mock_response;
use retort::turn::{
    finish_turn, history_leaf, history_leaf_with, move_tag, preview, resolve_context,
    snapshot_context, start_turn, HistoryError, TagChange, TurnStart,
};
use retort::{calculate_final_context, FileMetadata, MessageMetadata};

const T: &str = "2024-05-01 10:00:00";

fn store_with(n: usize) -> MessageStore {
    let mut s = MessageStore::new();
    let mut parent = None;
    for i in 0..n {
        let role = if i % 2 == 0 { "user" } else { "assistant" };
        parent = Some(db::add_message(&mut s, parent, role, "text", None, T).unwrap());
    }
    s
}

#[test]
fn tag_is_created_moved_or_left() {
    let mut s = store_with(2);
    assert_eq!(move_tag(&mut s, "t", 1), Ok(TagChange::Created));
    assert_eq!(move_tag(&mut s, "t", 1), Ok(TagChange::Unchanged));
    assert_eq!(move_tag(&mut s, "t", 2), Ok(TagChange::Moved { from: 1 }));
    assert_eq!(db::get_message_id_by_tag(&s, "t"), Some(2));
    assert_eq!(move_tag(&mut s, "t", 99), Err(StoreError::MessageNotFound { id: 99 }));
    assert_eq!(db::get_message_id_by_tag(&s, "t"), Some(2));
}

#[test]
fn history_options_name_one_target() {
    let v = Some("value".to_string());
    assert_eq!(history_target(&None, false, false), Ok(HistoryTarget::ActiveChat));
    assert_eq!(
        history_target(&v, false, false),
        Ok(HistoryTarget::Tag { name: "value".to_string() })
    );
    assert_eq!(
        history_target(&v, true, false),
        Ok(HistoryTarget::Tag { name: "value".to_string() })
    );
    assert_eq!(
        history_target(&v, false, true),
        Ok(HistoryTarget::Message { id: "value".to_string() })
    );
    assert_eq!(history_target(&v, true, true), Err(InvalidArguments {}));
    assert_eq!(history_target(&None, true, false), Err(InvalidArguments {}));
    assert_eq!(history_target(&None, false, true), Err(InvalidArguments {}));
}

#[test]
fn history_target_is_resolved_to_a_message() {
    let mut s = store_with(3);
    let active = HistoryTarget::ActiveChat;
    assert_eq!(history_leaf(&s, &active), Err(HistoryError::NoActiveChat));
    db::set_active_chat_tag(&mut s, "main");
    assert_eq!(history_leaf(&s, &active), Err(HistoryError::ActiveChatDangling));
    db::set_chat_tag(&mut s, "main", 3).unwrap();
    assert_eq!(history_leaf(&s, &active), Ok(3));
    let tag = |n: &str| HistoryTarget::Tag { name: n.to_string() };
    assert_eq!(history_leaf(&s, &tag("main")), Ok(3));
    assert_eq!(history_leaf(&s, &tag("nonexistent")), Err(HistoryError::TagNotFound));
    let id = |n: &str| HistoryTarget::Message { id: n.to_string() };
    assert_eq!(history_leaf(&s, &id("2")), Ok(2));
    assert_eq!(history_leaf(&s, &id("+2")), Ok(2));
    assert_eq!(history_leaf(&s, &id("999")), Err(HistoryError::MessageNotFound { id: 999 }));
    assert_eq!(history_leaf(&s, &id("-1")), Err(HistoryError::MessageNotFound { id: -1 }));
    assert_eq!(history_leaf(&s, &id("two")), Err(HistoryError::BadMessageId));
    assert_eq!(history_leaf(&s, &id("")), Err(HistoryError::BadMessageId));
    assert_eq!(history_leaf(&s, &id(" 2")), Err(HistoryError::BadMessageId));
    assert_eq!(history_leaf_with(&s, &id("ignored"), Some(1)), Ok(1));
    assert_eq!(history_leaf_with(&s, &id("1"), None), Err(HistoryError::BadMessageId));
}

fn row(role: &str, content: &str) -> HistoryMessage {
    HistoryMessage { role: role.to_string(), content: content.to_string(), created_at: T.to_string() }
}

#[test]
fn preview_is_the_last_user_message_on_one_line() {
    let history = vec![row("user", "first"), row("assistant", "answer"), row("user", "a\nb\n")];
    assert_eq!(preview(&history, "leaf"), "a b ");
    let history = vec![row("user", "Hello user"), row("assistant", "Hello assistant")];
    assert_eq!(preview(&history, "Hello assistant"), "Hello user");
    let history = vec![row("assistant", "Standalone assistant message")];
    assert_eq!(preview(&history, "Standalone assistant message"), "Standalone assistant message");
    assert_eq!(preview(&vec![], "x"), "x");
}

#[test]
fn preview_keeps_the_first_seventy_characters() {
    let long: String = "\u{e9}".repeat(69) + "ab" + "c";
    let history = vec![row("user", &long)];
    let shown = preview(&history, "");
    assert_eq!(shown.chars().count(), 70);
    assert_eq!(shown, "\u{e9}".repeat(69) + "a");
    let exact: String = "x".repeat(70);
    assert_eq!(preview(&vec![row("user", &exact)], ""), exact);
}

#[test]
fn parent_is_chosen_by_the_options_in_their_order() {
    let chat = Some("c".to_string());
    assert_eq!(parent_source(true, Some(3), &chat), ParentSource::Root);
    assert_eq!(parent_source(false, Some(3), &chat), ParentSource::Message { id: 3 });
    assert_eq!(parent_source(false, None, &chat), ParentSource::Chat { tag: "c".to_string() });
    assert_eq!(parent_source(false, None, &None), ParentSource::ActiveChat);
}

#[test]
fn turn_starts_below_the_message_of_its_source() {
    let mut s = store_with(2);
    db::set_chat_tag(&mut s, "c", 2).unwrap();
    assert_eq!(
        start_turn(&s, &ParentSource::Root),
        TurnStart { parent_id: None, tag_for_update: None }
    );
    assert_eq!(
        start_turn(&s, &ParentSource::Message { id: 1 }),
        TurnStart { parent_id: Some(1), tag_for_update: None }
    );
    assert_eq!(
        start_turn(&s, &ParentSource::Chat { tag: "c".to_string() }),
        TurnStart { parent_id: Some(2), tag_for_update: Some("c".to_string()) }
    );
    assert_eq!(
        start_turn(&s, &ParentSource::Chat { tag: "new".to_string() }),
        TurnStart { parent_id: None, tag_for_update: Some("new".to_string()) }
    );
    assert_eq!(
        start_turn(&s, &ParentSource::ActiveChat),
        TurnStart { parent_id: None, tag_for_update: None }
    );
    db::set_active_chat_tag(&mut s, "c");
    assert_eq!(
        start_turn(&s, &ParentSource::ActiveChat),
        TurnStart { parent_id: Some(2), tag_for_update: Some("c".to_string()) }
    );
}

fn record(rw: &[&str], ro: &[&str]) -> MessageMetadata {
    let f = |p: &&str| FileMetadata { path: p.to_string(), hash: "h".to_string() };
    MessageMetadata {
        read_write_files: rw.iter().map(f).collect(),
        read_only_files: ro.iter().map(f).collect(),
    }
}

fn shown(s: &MessageStore, parent: Option<i64>, ignore: bool) -> Vec<(String, bool)> {
    resolve_context(s, parent, ignore)
        .entries()
        .iter()
        .map(|e| (e.path.clone(), e.read_only))
        .collect()
}

#[test]
fn context_is_inherited_from_the_user_message_above_the_parent() {
    let mut s = MessageStore::new();
    let u1 = db::add_message(&mut s, None, "user", "q", Some(record(&["file1.txt"], &[])), T)
        .unwrap();
    let a1 = db::add_message(&mut s, Some(u1), "assistant", "a", None, T).unwrap();
    db::add_file_to_stage(&mut s, "default", "file2.txt", false).unwrap();
    let both = vec![("file1.txt".to_string(), false), ("file2.txt".to_string(), false)];
    let staged = vec![("file2.txt".to_string(), false)];
    assert_eq!(shown(&s, Some(a1), false), both);
    assert_eq!(shown(&s, Some(a1), true), staged);
    assert_eq!(shown(&s, None, false), staged);
    // The parent itself carries the record, but its parent does not exist.
    assert_eq!(shown(&s, Some(u1), false), staged);
    assert_eq!(shown(&s, Some(77), false), staged);
    db::remove_file_from_stage(&mut s, "default", "file1.txt").unwrap();
    assert_eq!(shown(&s, Some(a1), false), staged);
    db::add_file_to_stage(&mut s, "default", "file1.txt", true).unwrap();
    assert_eq!(
        shown(&s, Some(a1), false),
        vec![("file1.txt".to_string(), true), ("file2.txt".to_string(), false)]
    );
}

#[test]
fn snapshot_parts_the_files_and_hashes_their_contents() {
    let stage = db::ContextStage {
        name: "default".to_string(),
        read_write_files: vec!["b.txt".to_string()],
        read_only_files: vec!["a.txt".to_string(), "c.txt".to_string()],
        dropped_files: vec![],
    };
    let context = calculate_final_context(&MessageMetadata::default(), &stage);
    let contents = vec!["abc".to_string(), "".to_string(), "abc".to_string()];
    let s = snapshot_context(&context, &contents).unwrap();
    assert_eq!(s.read_write_files, vec![("b.txt".to_string(), "".to_string())]);
    assert_eq!(
        s.read_only_files,
        vec![("a.txt".to_string(), "abc".to_string()), ("c.txt".to_string(), "abc".to_string())]
    );
    let abc = "ba7816bf8f01cfea414140de5dae2223b00361a396177a9cb410ff61f20015ad";
    let empty = "e3b0c44298fc1c149afbf4c8996fb92427ae41e4649b934ca495991b7852b855";
    assert_eq!(
        s.metadata.read_write_files,
        vec![FileMetadata { path: "b.txt".to_string(), hash: empty.to_string() }]
    );
    assert_eq!(
        s.metadata.read_only_files,
        vec![
            FileMetadata { path: "a.txt".to_string(), hash: abc.to_string() },
            FileMetadata { path: "c.txt".to_string(), hash: abc.to_string() }
        ]
    );
    assert!(snapshot_context(&context, &contents[..2].to_vec()).is_none());
}

#[test]
fn finished_turn_clears_the_stage_and_moves_the_tag() {
    let mut s = MessageStore::new();
    db::add_file_to_stage(&mut s, "default", "a", false).unwrap();
    let turn = TurnStart { parent_id: None, tag_for_update: Some("chat".to_string()) };
    let user = db::add_message(&mut s, None, "user", "q", None, T).unwrap();
    assert_eq!(
        finish_turn(&mut s, &turn, 5, "answer", T),
        Err(StoreError::MessageNotFound { id: 5 })
    );
    assert_eq!(db::get_context_stage(&s, "default").unwrap().read_write_files, vec!["a"]);
    assert_eq!(finish_turn(&mut s, &turn, user, "answer", T), Ok(2));
    assert!(db::get_context_stage(&s, "default").unwrap().read_write_files.is_empty());
    assert_eq!(db::get_message_id_by_tag(&s, "chat"), Some(2));
    let m = s.message(2).unwrap();
    assert_eq!((m.role.as_str(), m.content.as_str(), m.parent_id), ("assistant", "answer", Some(1)));
    let plain = TurnStart { parent_id: Some(2), tag_for_update: None };
    let user = db::add_message(&mut s, Some(2), "user", "q2", None, T).unwrap();
    assert_eq!(finish_turn(&mut s, &plain, user, "a2", T), Ok(4));
    assert_eq!(db::get_message_id_by_tag(&s, "chat"), Some(2));
}

#[test]
fn stage_options_say_what_to_do() {
    let args = |p: Option<&str>, r: bool, d: bool| StageArgs {
        file_path: p.map(|s| s.to_string()),
        read_only: r,
        drop: d,
    };
    assert_eq!(args(None, false, false).action(), StageAction::Show);
    assert_eq!(
        args(Some("f"), false, false).action(),
        StageAction::Add { path: "f".to_string(), read_only: false }
    );
    assert_eq!(
        args(Some("f"), true, false).action(),
        StageAction::Add { path: "f".to_string(), read_only: true }
    );
    assert_eq!(args(Some("f"), true, true).action(), StageAction::Drop { path: "f".to_string() });
}

#[test]
fn streaming_follows_the_options_then_the_configuration() {
    assert!(use_stream(true, false, Some(false)));
    assert!(use_stream(true, true, None));
    assert!(!use_stream(false, true, Some(true)));
    assert!(use_stream(false, false, Some(true)));
    assert!(!use_stream(false, false, Some(false)));
    assert!(!use_stream(false, false, None));
}

#[test]
fn only_an_empty_answer_or_y_confirms() {
    for yes in ["", "\n", "y", "Y", " y \n", "\tY\r\n"] {
        assert!(confirms(yes));
    }
    for no in ["n", "yes", "yy", "no\n", "y y", "\u{ff59}"] {
        assert!(!confirms(no));
    }
}

#[test]
fn configured_text_stands_in_for_the_model_before_the_fixed_one() {
    assert_eq!(mock_response(Some("fixed".to_string()), true), Some("fixed".to_string()));
    assert_eq!(mock_response(Some("fixed".to_string()), false), Some("fixed".to_string()));
    assert_eq!(mock_response(None, true), Some("This is a mocked response.".to_string()));
    assert_eq!(mock_response(None, false), None);
}

#[test]
fn default_configuration_points_below_the_home_directory() {
    let c = Config::default();
    assert_eq!(c.database_path, "~/.retort/data/retort.db");
    assert_eq!(c.stream, None);
}
