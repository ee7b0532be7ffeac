use retort::hooks::postprocessor::{
    FileChange, PatchError, PostprocessorHook, Report, Step, FENCE_PATTERN,
};
use retort::hooks::{Hook, HookError, HookManager};
use retort::paths::lies_within;

fn change(path: &str, search: &str, replace: &str) -> FileChange {
    FileChange {
        path: path.to_string(),
        search_content: search.to_string(),
        replace_content: replace.to_string(),
    }
}

const RESPONSE: &str = "fix bug\na.txt\n<<<<<<< SEARCH\nfoo\n=======\nbar\n>>>>>>> REPLACE\n";

#[test]
fn placeholder_test() {
    assert_eq!(2 + 2, 4);
}

#[test]
fn parse_single_block_gives_change_and_message() {
    let hook = PostprocessorHook {};
    let (message, changes) = hook.parse_changes(RESPONSE).unwrap();
    assert_eq!(message, "fix bug");
    assert_eq!(changes.len(), 1);
    assert_eq!(changes[0].path, "a.txt");
    assert_eq!(changes[0].search_content, "foo");
    assert_eq!(changes[0].replace_content, "bar");
}

#[test]
fn response_with_one_match_is_applied_and_committed() {
    let hook = PostprocessorHook {};
    let (message, changes) = hook.parse_changes(RESPONSE).unwrap();
    let (mut run, first) = hook.apply_and_commit_changes(&message, changes, None);
    assert_eq!(first, Step::Read { path: "a.txt".to_string() });
    let second = run.advance(Report::Content { text: "x foo y\n".to_string() });
    assert_eq!(
        second,
        Step::Write { path: "a.txt".to_string(), content: "x bar y\n".to_string() }
    );
    assert_eq!(run.advance(Report::Done), Step::Add { path: "a.txt".to_string() });
    assert_eq!(run.advance(Report::Done), Step::Commit { message: "fix bug".to_string() });
    assert!(!run.is_closed());
    assert_eq!(run.advance(Report::Done), Step::Finished);
    assert!(run.is_closed());
}

#[test]
fn two_matches_are_ambiguous_and_nothing_is_written() {
    let hook = PostprocessorHook {};
    let (message, changes) = hook.parse_changes(RESPONSE).unwrap();
    let (mut run, first) = hook.apply_and_commit_changes(&message, changes, None);
    assert_eq!(first, Step::Read { path: "a.txt".to_string() });
    let second = run.advance(Report::Content { text: "foo and foo\n".to_string() });
    assert_eq!(
        second,
        Step::Failed { error: PatchError::Ambiguous { path: "a.txt".to_string(), count: 2 } }
    );
    assert!(run.is_closed());
    assert_eq!(run.advance(Report::Done), Step::Failed { error: PatchError::OutOfTurn });
}

#[test]
fn empty_search_replaces_the_whole_file_without_reading_it() {
    let hook = PostprocessorHook {};
    let response = "add file\nnew/dir/b.txt\n<<<<<<< SEARCH\n=======\nhello\nworld\n>>>>>>> REPLACE\n";
    let (message, changes) = hook.parse_changes(response).unwrap();
    assert_eq!(message, "add file");
    assert_eq!(changes.len(), 1);
    assert_eq!(changes[0].search_content, "");
    assert_eq!(changes[0].replace_content, "hello\nworld");
    let (mut run, first) = hook.apply_and_commit_changes(&message, changes, None);
    assert_eq!(
        first,
        Step::Write { path: "new/dir/b.txt".to_string(), content: "hello\nworld\n".to_string() }
    );
    assert_eq!(run.advance(Report::Done), Step::Add { path: "new/dir/b.txt".to_string() });
}

#[test]
fn path_outside_the_root_stops_the_run_before_any_write() {
    let hook = PostprocessorHook {};
    let changes = vec![change("in.txt", "", "a"), change("../out.txt", "", "b")];
    let (mut run, first) =
        hook.apply_and_commit_changes("msg", changes, Some("/home/u/project".to_string()));
    assert_eq!(first, Step::Resolve { path: "in.txt".to_string() });
    let second = run.advance(Report::Resolved { canonical: "/home/u/project/in.txt".to_string() });
    assert_eq!(second, Step::Resolve { path: "../out.txt".to_string() });
    let third = run.advance(Report::Resolved { canonical: "/home/u/out.txt".to_string() });
    assert_eq!(
        third,
        Step::Failed {
            error: PatchError::Unauthorized {
                path: "../out.txt".to_string(),
                root: "/home/u/project".to_string(),
            }
        }
    );
    assert!(run.is_closed());
}

#[test]
fn paths_inside_the_root_are_written_after_all_were_checked() {
    let hook = PostprocessorHook {};
    let changes = vec![change("a.txt", "", "a"), change("b.txt", "x", "y")];
    let (mut run, first) = hook.apply_and_commit_changes("", changes, Some("/p".to_string()));
    assert_eq!(first, Step::Resolve { path: "a.txt".to_string() });
    assert_eq!(
        run.advance(Report::Resolved { canonical: "/p/a.txt".to_string() }),
        Step::Resolve { path: "b.txt".to_string() }
    );
    assert_eq!(
        run.advance(Report::Resolved { canonical: "/p/sub/b.txt".to_string() }),
        Step::Write { path: "a.txt".to_string(), content: "a\n".to_string() }
    );
    assert_eq!(run.advance(Report::Done), Step::Read { path: "b.txt".to_string() });
    assert_eq!(
        run.advance(Report::Content { text: "1x2".to_string() }),
        Step::Write { path: "b.txt".to_string(), content: "1y2\n".to_string() }
    );
    assert_eq!(run.advance(Report::Done), Step::Add { path: "a.txt".to_string() });
    assert_eq!(run.advance(Report::Done), Step::Add { path: "b.txt".to_string() });
    assert_eq!(
        run.advance(Report::Done),
        Step::Commit { message: "Apply changes from LLM".to_string() }
    );
    assert_eq!(run.advance(Report::Done), Step::Finished);
}

#[test]
fn failure_at_the_second_file_leaves_the_first_written_and_nothing_staged() {
    let hook = PostprocessorHook {};
    let changes = vec![change("a.txt", "", "a"), change("b.txt", "x", "y")];
    let (mut run, first) = hook.apply_and_commit_changes("m", changes, None);
    assert_eq!(first, Step::Write { path: "a.txt".to_string(), content: "a\n".to_string() });
    assert_eq!(run.advance(Report::Done), Step::Read { path: "b.txt".to_string() });
    assert_eq!(
        run.advance(Report::Content { text: "nothing here".to_string() }),
        Step::Failed { error: PatchError::NotFound { path: "b.txt".to_string() } }
    );
    assert!(run.is_closed());
}

#[test]
fn no_changes_means_nothing_to_do() {
    let hook = PostprocessorHook {};
    let (run, first) = hook.apply_and_commit_changes("message", Vec::new(), Some("/p".to_string()));
    assert_eq!(first, Step::Finished);
    assert!(run.is_closed());
}

#[test]
fn tool_and_io_failures_end_the_run() {
    let hook = PostprocessorHook {};
    let (mut run, _) = hook.apply_and_commit_changes("m", vec![change("a", "", "a")], None);
    assert_eq!(run.advance(Report::Done), Step::Add { path: "a".to_string() });
    assert_eq!(
        run.advance(Report::ToolFailed),
        Step::Failed { error: PatchError::AddFailed { path: "a".to_string() } }
    );

    let (mut run, _) = hook.apply_and_commit_changes("m", vec![change("a", "", "a")], None);
    run.advance(Report::Done);
    assert_eq!(run.advance(Report::Done), Step::Commit { message: "m".to_string() });
    assert_eq!(run.advance(Report::ToolFailed), Step::Failed { error: PatchError::CommitFailed });

    let (mut run, _) = hook.apply_and_commit_changes("m", vec![change("a", "s", "a")], None);
    assert_eq!(run.advance(Report::IoFailed), Step::Failed { error: PatchError::Io });

    let (mut run, _) = hook.apply_and_commit_changes("m", vec![change("a", "s", "a")], None);
    assert_eq!(run.advance(Report::Done), Step::Failed { error: PatchError::OutOfTurn });

    let (mut run, _) =
        hook.apply_and_commit_changes("m", vec![change("a", "s", "a")], Some("/r".to_string()));
    assert_eq!(
        run.advance(Report::Content { text: "s".to_string() }),
        Step::Failed { error: PatchError::OutOfTurn }
    );
}

#[test]
fn response_without_blocks_is_all_message() {
    let hook = PostprocessorHook {};
    let (message, changes) = hook.parse_changes("  just some text\nand more\n\n").unwrap();
    assert!(changes.is_empty());
    assert_eq!(message, "just some text\nand more");
    let (loose, changes) = hook.split_response("one\ntwo\n");
    assert!(changes.is_empty());
    assert_eq!(loose, "one\ntwo");
}

#[test]
fn unterminated_block_is_dropped_and_its_lines_stay_in_the_message() {
    let hook = PostprocessorHook {};
    let response = "note\na.txt\n<<<<<<< SEARCH\nfoo\n=======\nbar\n";
    let (message, changes) = hook.parse_changes(response).unwrap();
    assert!(changes.is_empty());
    assert_eq!(message, "note\na.txt\n<<<<<<< SEARCH\nfoo\n=======\nbar");
    let response = "a.txt\n<<<<<<< SEARCH\nfoo\n>>>>>>> REPLACE\n";
    let (_, changes) = hook.parse_changes(response).unwrap();
    assert!(changes.is_empty());
}

#[test]
fn lines_that_cannot_be_paths_start_no_block() {
    let hook = PostprocessorHook {};
    for head in ["", "# title", "two words", "   "] {
        let response = format!("{}\n<<<<<<< SEARCH\nfoo\n=======\nbar\n>>>>>>> REPLACE\n", head);
        let (_, changes) = hook.parse_changes(&response).unwrap();
        assert!(changes.is_empty());
    }
    let response = "  padded.txt \n<<<<<<< SEARCH\nfoo\n=======\nbar\n>>>>>>> REPLACE\n";
    let (message, changes) = hook.parse_changes(response).unwrap();
    assert_eq!(changes.len(), 1);
    assert_eq!(changes[0].path, "padded.txt");
    assert_eq!(message, "");
}

#[test]
fn several_blocks_come_out_in_order_with_their_lines_joined() {
    let hook = PostprocessorHook {};
    let response = "intro\na.txt\n<<<<<<< SEARCH\n1\n2\n=======\n3\n\n4\n>>>>>>> REPLACE\nbetween\nb.txt\n<<<<<<< SEARCH\n=======\n=======\n>>>>>>> REPLACE\noutro";
    let (message, changes) = hook.parse_changes(response).unwrap();
    assert_eq!(message, "intro\nbetween\noutro");
    assert_eq!(changes.len(), 2);
    assert_eq!(changes[0], change("a.txt", "1\n2", "3\n\n4"));
    assert_eq!(changes[1], change("b.txt", "", "======="));
}

#[test]
fn carriage_returns_before_line_feeds_are_not_part_of_lines() {
    let hook = PostprocessorHook {};
    let response = "msg\r\na.txt\r\n<<<<<<< SEARCH\r\nfoo\r\n=======\r\nbar\r\n>>>>>>> REPLACE\r\n";
    let (message, changes) = hook.parse_changes(response).unwrap();
    assert_eq!(message, "msg");
    assert_eq!(changes, vec![change("a.txt", "foo", "bar")]);
}

#[test]
fn fenced_code_is_taken_out_of_the_message() {
    let hook = PostprocessorHook {};
    let response = "update\n```rust\nfn main() {}\n```\nthanks\n";
    let (message, changes) = hook.parse_changes(response).unwrap();
    assert!(changes.is_empty());
    assert_eq!(message, "update\n\nthanks");
    assert_eq!(FENCE_PATTERN, "(?s)```[a-zA-Z]*\\n?.*?\\n?```");
}

#[test]
fn clean_message_trims_white_space() {
    let hook = PostprocessorHook {};
    assert_eq!(hook.clean_message(" \t\n a b \u{a0}\u{3000}\r\n"), "a b");
    assert_eq!(hook.clean_message(" \n"), "");
}

#[test]
fn single_occurrence_is_replaced() {
    let c = change("a.txt", "foo", "bar");
    assert_eq!(c.apply_to("x foo y"), Ok("x bar y\n".to_string()));
    assert_eq!(c.apply_to("x foo y\n"), Ok("x bar y\n".to_string()));
    assert_eq!(c.apply_to("foo\n\n"), Ok("bar\n\n".to_string()));
    assert_eq!(
        c.apply_to("foo foo"),
        Err(PatchError::Ambiguous { path: "a.txt".to_string(), count: 2 })
    );
    assert_eq!(c.apply_to("none"), Err(PatchError::NotFound { path: "a.txt".to_string() }));
    assert_eq!(c.apply_to(""), Err(PatchError::NotFound { path: "a.txt".to_string() }));
}

#[test]
fn occurrences_are_counted_without_overlap() {
    let c = change("a.txt", "aa", "b");
    assert_eq!(c.apply_to("aaa"), Ok("ba\n".to_string()));
    assert_eq!(
        c.apply_to("aaaa"),
        Err(PatchError::Ambiguous { path: "a.txt".to_string(), count: 2 })
    );
    let gone = change("a.txt", "x", "");
    assert_eq!(gone.apply_to("x"), Ok("".to_string()));
    let whole = change("a.txt", "", "");
    assert_eq!(whole.apply_to("anything"), Ok("".to_string()));
}

#[test]
fn errors_say_what_went_wrong() {
    assert_eq!(
        PatchError::NotFound { path: "a.txt".to_string() }.message(),
        "SEARCH block not found in file a.txt"
    );
    assert_eq!(
        PatchError::Ambiguous { path: "a.txt".to_string(), count: 12 }.message(),
        "SEARCH block appears 12 times in file a.txt. Ambiguous which one to replace."
    );
    assert_eq!(
        PatchError::Unauthorized { path: "../x".to_string(), root: "/p".to_string() }.message(),
        "Attempted to modify file ../x which is outside the project root /p."
    );
    assert_eq!(
        PatchError::AddFailed { path: "a.txt".to_string() }.message(),
        "git add failed for a.txt"
    );
    assert_eq!(PatchError::CommitFailed.message(), "git commit failed");
    assert!(!PatchError::BadPattern.message().is_empty());
    assert!(!PatchError::Io.message().is_empty());
    assert!(!PatchError::OutOfTurn.message().is_empty());
}

#[test]
fn containment_goes_by_whole_segments() {
    assert!(lies_within("/home/u/project/a.txt", "/home/u/project"));
    assert!(lies_within("/home/u/project", "/home/u/project"));
    assert!(lies_within("/home/u/project/a/b", "/home/u/project/"));
    assert!(lies_within("/home//u/project/a", "/home/u//project"));
    assert!(!lies_within("/home/u/project-other/a.txt", "/home/u/project"));
    assert!(!lies_within("/home/u", "/home/u/project"));
    assert!(!lies_within("home/u/project/a", "/home/u/project"));
    assert!(lies_within("/anything", "/"));
    assert!(lies_within("a/b", "a"));
    assert!(!lies_within("a/b", "b"));
}

struct Fixed(Result<(), String>);

impl Hook for Fixed {
    fn post_send(
        &self,
        _llm_response: &str,
        _project_root: &Option<String>,
    ) -> Result<(), HookError> {
        match &self.0 {
            Ok(()) => Ok(()),
            Err(m) => Err(HookError { message: m.clone() }),
        }
    }
}

#[test]
fn hooks_run_in_order_and_stop_at_first_failure() {
    let mut manager: HookManager<Fixed> = HookManager::new();
    assert_eq!(manager.run_post_send_hooks("x", &None), Ok(()));
    manager.register(Fixed(Ok(())));
    assert_eq!(manager.run_post_send_hooks("x", &None), Ok(()));
    manager.register(Fixed(Err("first".to_string())));
    manager.register(Fixed(Err("second".to_string())));
    assert_eq!(
        manager.run_post_send_hooks("x", &None),
        Err(HookError { message: "first".to_string() })
    );
    let mut boxed: HookManager<Box<dyn Hook>> = HookManager::default();
    assert_eq!(boxed.run_post_send_hooks("x", &Some("/p".to_string())), Ok(()));
    boxed.register(Box::new(Fixed(Ok(()))));
    boxed.register(Box::new(Fixed(Err("boxed".to_string()))));
    assert_eq!(
        boxed.run_post_send_hooks("x", &None),
        Err(HookError { message: "boxed".to_string() })
    );
}

#[test]
fn response_is_read_and_its_run_started_in_one_call() {
    let hook = PostprocessorHook {};
    let (run, step) = hook.post_send(RESPONSE, &None).unwrap();
    assert_eq!(step, Step::Read { path: "a.txt".to_string() });
    assert!(!run.is_closed());
    let (run, step) = hook.post_send("nothing to do", &Some("/p".to_string())).unwrap();
    assert_eq!(step, Step::Finished);
    assert!(run.is_closed());
}
