use retort::db::{self, MessageStore, StoreError};
use retort::{FileMetadata, MessageMetadata};

fn setup_in_memory_db() -> MessageStore {
    MessageStore::new()
}

const T0: &str = "2024-05-01 10:00:00";
const T1: &str = "2024-05-01 10:00:01";
const T2: &str = "2024-05-01 10:00:02";

#[test]
fn chat_test_chat_flow() {
    let mut conn = setup_in_memory_db();

    // 1. Create a root message for a new chat.
    let root_id = db::add_message(&mut conn, None, "user", "Hello, world!", None, T0).unwrap();
    assert_eq!(root_id, 1);

    // Verify it's the only leaf.
    let leaves = db::get_leaf_messages(&conn);
    assert_eq!(leaves.len(), 1);
    assert_eq!(leaves[0].id, root_id);
    assert_eq!(leaves[0].tag, None);

    // 2. Tag the message to track the conversation.
    db::set_chat_tag(&mut conn, "test-chat", root_id).unwrap();
    assert_eq!(db::get_message_id_by_tag(&conn, "test-chat").unwrap(), root_id);

    // 3. Continue the conversation from the tag.
    let parent_id = db::get_message_id_by_tag(&conn, "test-chat").unwrap();
    let child_id =
        db::add_message(&mut conn, Some(parent_id), "user", "Tell me more.", None, T1).unwrap();
    assert_eq!(child_id, 2);

    // The tag should still point to the old message, which is no longer a leaf.
    // The new message should be the only leaf, and have no tag.
    let leaves = db::get_leaf_messages(&conn);
    assert_eq!(leaves.len(), 1);
    assert_eq!(leaves[0].id, child_id);
    assert_eq!(leaves[0].tag, None);

    // 4. Update the tag to point to the new message.
    db::set_chat_tag(&mut conn, "test-chat", child_id).unwrap();
    assert_eq!(db::get_message_id_by_tag(&conn, "test-chat").unwrap(), child_id);

    // Now the leaf should have a tag.
    let leaves = db::get_leaf_messages(&conn);
    assert_eq!(leaves.len(), 1);
    assert_eq!(leaves[0].id, child_id);
    assert_eq!(leaves[0].tag, Some("test-chat".to_string()));
}

#[test]
fn main_test_chat_flow() {
    let mut conn = setup_in_memory_db();

    // 1. Create a root message for a new chat.
    let root_id = db::add_message(&mut conn, None, "user", "Hello, world!", None, T0).unwrap();
    assert_eq!(root_id, 1);

    // Verify it's the only leaf.
    let leaves = db::get_leaf_messages(&conn);
    assert_eq!(leaves.len(), 1);
    assert_eq!(leaves[0].id, root_id);

    // 2. Tag the message to track the conversation.
    db::set_chat_tag(&mut conn, "test-chat", root_id).unwrap();
    assert_eq!(db::get_message_id_by_tag(&conn, "test-chat").unwrap(), root_id);

    // 3. Continue the conversation from the tag.
    let parent_id = db::get_message_id_by_tag(&conn, "test-chat").unwrap();
    let child_id =
        db::add_message(&mut conn, Some(parent_id), "user", "Tell me more.", None, T0).unwrap();
    assert_eq!(child_id, 2);

    // The new message should now be the only leaf.
    let leaves = db::get_leaf_messages(&conn);
    assert_eq!(leaves.len(), 1);
    assert_eq!(leaves[0].id, child_id);

    // 4. Update the tag to point to the new message.
    db::set_chat_tag(&mut conn, "test-chat", child_id).unwrap();
    assert_eq!(db::get_message_id_by_tag(&conn, "test-chat").unwrap(), child_id);
}

#[test]
fn test_profile_flow() {
    let mut conn = setup_in_memory_db();

    // 1. Default profile should exist with no active chat.
    let profile = db::get_profile_by_name(&conn, "default").unwrap();
    assert_eq!(profile.name, "default");
    assert_eq!(profile.active_chat_tag, None);

    // 2. Set active chat tag.
    db::set_active_chat_tag(&mut conn, "my-chat");
    let updated_profile = db::get_profile_by_name(&conn, "default").unwrap();
    assert_eq!(updated_profile.active_chat_tag, Some("my-chat".to_string()));
}

#[test]
fn test_context_stage_flow() {
    let mut conn = setup_in_memory_db();

    // 1. Initial default stage should be empty.
    let stage = db::get_context_stage(&conn, "default").unwrap();
    assert_eq!(stage.name, "default");
    assert!(stage.read_write_files.is_empty());
    assert!(stage.read_only_files.is_empty());

    // 2. Add a read-write file.
    db::add_file_to_stage(&mut conn, "default", "src/main.rs", false).unwrap();
    let stage = db::get_context_stage(&conn, "default").unwrap();
    assert_eq!(stage.read_write_files, vec!["src/main.rs"]);
    assert!(stage.read_only_files.is_empty());

    // 3. Add a read-only file.
    db::add_file_to_stage(&mut conn, "default", "README.md", true).unwrap();
    let stage = db::get_context_stage(&conn, "default").unwrap();
    assert_eq!(stage.read_write_files, vec!["src/main.rs"]);
    assert_eq!(stage.read_only_files, vec!["README.md"]);

    // 4. Add a duplicate file - should be ignored.
    db::add_file_to_stage(&mut conn, "default", "src/main.rs", false).unwrap();
    let stage = db::get_context_stage(&conn, "default").unwrap();
    assert_eq!(stage.read_write_files.len(), 1);

    // 5. Remove a file.
    db::remove_file_from_stage(&mut conn, "default", "src/main.rs").unwrap();
    let stage = db::get_context_stage(&conn, "default").unwrap();
    assert!(stage.read_write_files.is_empty());
    assert_eq!(stage.read_only_files, vec!["README.md"]);

    // 6. Remove a non-existent file - should do nothing.
    db::remove_file_from_stage(&mut conn, "default", "src/other.rs").unwrap();
    let stage = db::get_context_stage(&conn, "default").unwrap();
    assert_eq!(stage.read_only_files.len(), 1);
}

fn ids(leaves: &[db::Leaf]) -> Vec<i64> {
    leaves.iter().map(|l| l.id).collect()
}

#[test]
fn leaves_are_the_messages_without_children_newest_first() {
    let mut s = MessageStore::new();
    assert!(db::get_leaf_messages(&s).is_empty());
    let a = db::add_message(&mut s, None, "user", "a", None, T0).unwrap();
    let b = db::add_message(&mut s, Some(a), "assistant", "b", None, T1).unwrap();
    let c = db::add_message(&mut s, Some(a), "assistant", "c", None, T1).unwrap();
    let d = db::add_message(&mut s, None, "user", "d", None, T0).unwrap();
    assert_eq!((a, b, c, d), (1, 2, 3, 4));
    // b and c bear the same time, so the greater id comes first; d is older.
    assert_eq!(ids(&db::get_leaf_messages(&s)), vec![3, 2, 4]);
    // A child of the leaf b takes its place.
    let e = db::add_message(&mut s, Some(b), "user", "e", None, T2).unwrap();
    assert_eq!(ids(&db::get_leaf_messages(&s)), vec![e, 3, 4]);
    let leaves = db::get_leaf_messages(&s);
    assert_eq!(leaves[0].content, "e");
    assert_eq!(leaves[0].created_at, T2);
}

#[test]
fn leaf_carries_the_first_tag_that_points_to_it() {
    let mut s = MessageStore::new();
    let a = db::add_message(&mut s, None, "user", "a", None, T0).unwrap();
    db::set_chat_tag(&mut s, "zeta", a).unwrap();
    db::set_chat_tag(&mut s, "alpha", a).unwrap();
    assert_eq!(db::get_leaf_messages(&s)[0].tag, Some("alpha".to_string()));
}

#[test]
fn history_runs_from_the_root_to_the_leaf() {
    let mut s = MessageStore::new();
    let a = db::add_message(&mut s, None, "user", "one", None, T0).unwrap();
    let b = db::add_message(&mut s, Some(a), "assistant", "two", None, T0).unwrap();
    let _other = db::add_message(&mut s, Some(a), "assistant", "side", None, T1).unwrap();
    let c = db::add_message(&mut s, Some(b), "user", "three", None, T2).unwrap();
    let history = db::get_conversation_history(&s, c).unwrap();
    let contents: Vec<&str> = history.iter().map(|m| m.content.as_str()).collect();
    assert_eq!(contents, vec!["one", "two", "three"]);
    let roles: Vec<&str> = history.iter().map(|m| m.role.as_str()).collect();
    assert_eq!(roles, vec!["user", "assistant", "user"]);
    assert_eq!(history[2].created_at, T2);
    let short = db::get_conversation_history(&s, a).unwrap();
    assert_eq!(short.len(), 1);
    assert_eq!(short[0].content, "one");
}

#[test]
fn history_is_ordered_by_time_before_id() {
    let mut s = MessageStore::new();
    // The child bears an earlier time than its parent: it comes first.
    let a = db::add_message(&mut s, None, "user", "late root", None, T2).unwrap();
    let b = db::add_message(&mut s, Some(a), "assistant", "early child", None, T0).unwrap();
    let history = db::get_conversation_history(&s, b).unwrap();
    let contents: Vec<&str> = history.iter().map(|m| m.content.as_str()).collect();
    assert_eq!(contents, vec!["early child", "late root"]);
}

#[test]
fn history_of_a_missing_message_is_not_found() {
    let mut s = MessageStore::new();
    assert_eq!(
        db::get_conversation_history(&s, 1),
        Err(StoreError::MessageNotFound { id: 1 })
    );
    db::add_message(&mut s, None, "user", "a", None, T0).unwrap();
    assert_eq!(
        db::get_conversation_history(&s, 0),
        Err(StoreError::MessageNotFound { id: 0 })
    );
    assert_eq!(
        db::get_conversation_history(&s, -3),
        Err(StoreError::MessageNotFound { id: -3 })
    );
}

#[test]
fn deep_chain_is_walked_without_recursion() {
    let mut s = MessageStore::new();
    assert!(s.is_well_formed());
    let mut parent = None;
    for _ in 0..300 {
        parent = Some(db::add_message(&mut s, parent, "user", "m", None, T0).unwrap());
    }
    assert!(s.is_well_formed());
    let history = db::get_conversation_history(&s, 300).unwrap();
    assert_eq!(history.len(), 300);
    assert_eq!(ids(&db::get_leaf_messages(&s)), vec![300]);
}

#[test]
fn message_below_a_missing_parent_is_refused() {
    let mut s = MessageStore::new();
    assert_eq!(
        db::add_message(&mut s, Some(1), "user", "a", None, T0),
        Err(StoreError::MessageNotFound { id: 1 })
    );
    assert_eq!(s.message_count(), 0);
    assert!(!db::message_exists(&s, 1));
    db::add_message(&mut s, None, "user", "a", None, T0).unwrap();
    assert!(db::message_exists(&s, 1));
    assert!(!db::message_exists(&s, 2));
    assert!(!db::message_exists(&s, 0));
    assert_eq!(db::get_parent_id(&s, 1), None);
    assert_eq!(db::get_parent_id(&s, 7), None);
    db::add_message(&mut s, Some(1), "assistant", "b", None, T0).unwrap();
    assert_eq!(db::get_parent_id(&s, 2), Some(1));
    assert_eq!(s.message(2).unwrap().content, "b");
    assert!(s.message(3).is_none());
}

#[test]
fn metadata_is_kept_with_the_message() {
    let mut s = MessageStore::new();
    let meta = MessageMetadata {
        read_write_files: vec![FileMetadata { path: "a".to_string(), hash: "h".to_string() }],
        read_only_files: vec![],
    };
    db::add_message(&mut s, None, "user", "a", Some(meta.clone()), T0).unwrap();
    db::add_message(&mut s, Some(1), "assistant", "b", None, T0).unwrap();
    assert_eq!(db::get_message_metadata(&s, 1), Some(&meta));
    assert_eq!(db::get_message_metadata(&s, 2), None);
    assert_eq!(db::get_message_metadata(&s, 3), None);
}

#[test]
fn tags_move_are_deleted_and_listed_by_name() {
    let mut s = MessageStore::new();
    db::add_message(&mut s, None, "user", "a", None, T0).unwrap();
    db::add_message(&mut s, None, "user", "b", None, T0).unwrap();
    assert_eq!(
        db::set_chat_tag(&mut s, "x", 3),
        Err(StoreError::MessageNotFound { id: 3 })
    );
    db::set_chat_tag(&mut s, "m", 1).unwrap();
    db::set_chat_tag(&mut s, "b", 2).unwrap();
    db::set_chat_tag(&mut s, "z", 1).unwrap();
    db::set_chat_tag(&mut s, "a", 2).unwrap();
    db::set_chat_tag(&mut s, "m", 2).unwrap();
    let names: Vec<(String, i64)> =
        db::get_all_tags(&s).into_iter().map(|t| (t.name, t.message_id)).collect();
    assert_eq!(
        names,
        vec![
            ("a".to_string(), 2),
            ("b".to_string(), 2),
            ("m".to_string(), 2),
            ("z".to_string(), 1)
        ]
    );
    assert_eq!(db::get_message_id_by_tag(&s, "m"), Some(2));
    assert_eq!(db::get_message_id_by_tag(&s, "none"), None);
    assert_eq!(db::delete_chat_tag(&mut s, "m"), Some(2));
    assert_eq!(db::delete_chat_tag(&mut s, "m"), None);
    assert_eq!(db::get_message_id_by_tag(&s, "m"), None);
    assert_eq!(db::get_all_tags(&s).len(), 3);
}

#[test]
fn profile_and_stage_are_found_by_name_only() {
    let mut s = MessageStore::new();
    assert_eq!(db::get_profile_by_name(&s, "other"), Err(StoreError::ProfileNotFound));
    assert_eq!(db::get_context_stage(&s, "other"), Err(StoreError::StageNotFound));
    assert_eq!(
        db::add_file_to_stage(&mut s, "other", "a", false),
        Err(StoreError::StageNotFound)
    );
    assert_eq!(
        db::remove_file_from_stage(&mut s, "other", "a"),
        Err(StoreError::StageNotFound)
    );
    assert_eq!(db::get_active_chat_tag(&s), None);
    db::set_active_chat_tag(&mut s, "chat");
    assert_eq!(db::get_active_chat_tag(&s), Some("chat".to_string()));
    db::set_project_root(&mut s, "other", "/nowhere");
    assert_eq!(db::get_profile_by_name(&s, "default").unwrap().project_root, None);
    db::set_project_root(&mut s, "default", "/p");
    assert_eq!(
        db::get_profile_by_name(&s, "default").unwrap().project_root,
        Some("/p".to_string())
    );
}

#[test]
fn stage_is_replaced_and_cleared_by_name() {
    let mut s = MessageStore::new();
    let stage = db::ContextStage {
        name: "default".to_string(),
        read_write_files: vec!["a".to_string()],
        read_only_files: vec!["b".to_string()],
        dropped_files: vec!["c".to_string()],
    };
    db::update_context_stage(&mut s, &stage);
    assert_eq!(db::get_context_stage(&s, "default"), Ok(&stage));
    let other = db::ContextStage { name: "other".to_string(), ..db::ContextStage::default() };
    db::update_context_stage(&mut s, &other);
    assert_eq!(db::get_context_stage(&s, "default"), Ok(&stage));
    db::clear_context_stage(&mut s, "other");
    assert_eq!(db::get_context_stage(&s, "default"), Ok(&stage));
    db::clear_context_stage(&mut s, "default");
    let cleared = db::get_context_stage(&s, "default").unwrap();
    assert!(cleared.read_write_files.is_empty());
    assert!(cleared.read_only_files.is_empty());
    assert!(cleared.dropped_files.is_empty());
    assert_eq!(cleared.name, "default");
}

#[test]
fn legacy_columns_are_read_as_lists_of_paths() {
    let stage = db::decode_legacy_stage("default", "[\"a.rs\", \"b.rs\"]", "[\"c.md\"]");
    assert_eq!(stage.name, "default");
    assert_eq!(stage.read_write_files, vec!["a.rs", "b.rs"]);
    assert_eq!(stage.read_only_files, vec!["c.md"]);
    assert!(stage.dropped_files.is_empty());
    let broken = db::decode_legacy_stage("default", "{\"read_write_files\": 3}", "not json");
    assert!(broken.read_write_files.is_empty());
    assert!(broken.read_only_files.is_empty());
    let empty = db::decode_legacy_stage("default", "[]", "[]");
    assert!(empty.read_write_files.is_empty());
    let made = db::stage_from_lists("s", Some(vec!["x".to_string()]), None, Some(vec![]));
    assert_eq!(made.read_write_files, vec!["x"]);
    assert!(made.read_only_files.is_empty());
    assert!(made.dropped_files.is_empty());
}
