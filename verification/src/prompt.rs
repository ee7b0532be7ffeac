//! The list of messages that is sent to the model for one turn.

use crate::db::HistoryMessage;
use crate::text::{chars_of, same_chars};
use vstd::prelude::*;

verus! {

/// One message as the model receives it.
#[derive(Debug, Clone, PartialEq, Eq)]
pub struct Message {
    pub role: String,
    pub content: String,
}

/// What a `Message` holds, as character sequences.
pub ghost struct MessageView {
    pub role: Seq<char>,
    pub content: Seq<char>,
}

impl View for Message {
    type V = MessageView;

    open spec fn view(&self) -> MessageView {
        MessageView { role: self.role@, content: self.content@ }
    }
}

/// The line above the files that the model may only read.
pub const READ_ONLY_FILES_PREFIX: &'static str =
    "The user has provided the following read-only files:";

/// The line above the files that the model may edit.
pub const CHAT_FILES_PREFIX: &'static str =
    "The user has added these files to the chat. You may propose edits to them.";

/// The answer that follows the files that the model may only read.
pub const READ_ONLY_FILES_REPLY: &'static str = "Ok, I will use these files as references.";

/// The answer that follows the files that the model may edit.
pub const CHAT_FILES_REPLY: &'static str = "Ok, any changes I propose will be to those files.";

/// The views of a list of messages.
pub open spec fn message_views(v: Seq<Message>) -> Seq<MessageView> {
    Seq::new(v.len(), |i: int| v[i]@)
}

/// The messages of a conversation, as the model receives them.
pub open spec fn as_messages(h: Seq<HistoryMessage>) -> Seq<MessageView> {
    Seq::new(h.len(), |i: int| MessageView { role: h[i].role@, content: h[i].content@ })
}

/// The paths and contents of a list of files.
pub open spec fn file_views(files: Seq<(String, String)>) -> Seq<(Seq<char>, Seq<char>)> {
    Seq::new(files.len(), |i: int| (files[i].0@, files[i].1@))
}

/// One file as it is shown: its path on a line, then its content between
/// two fence lines.
pub open spec fn fenced_file(path: Seq<char>, content: Seq<char>) -> Seq<char> {
    path + "\n```\n"@ + content + "\n```\n"@
}

/// The text that shows a list of files below the line `prefix`.
pub open spec fn files_block(prefix: Seq<char>, files: Seq<(Seq<char>, Seq<char>)>) -> Seq<char>
    decreases files.len(),
{
    if files.len() == 0 {
        prefix + "\n"@
    } else {
        files_block(prefix, files.drop_last()) + fenced_file(files.last().0, files.last().1)
    }
}

/// The two messages that show a list of files and acknowledge them; none
/// where the list is empty.
pub open spec fn files_turn(
    prefix: Seq<char>,
    files: Seq<(Seq<char>, Seq<char>)>,
    reply: Seq<char>,
) -> Seq<MessageView> {
    if files.len() == 0 {
        Seq::empty()
    } else {
        seq![
            MessageView { role: "user"@, content: files_block(prefix, files) },
            MessageView { role: "assistant"@, content: reply },
        ]
    }
}

/// The messages of one turn: the system prompt, the files that may only be
/// read, the files that may be edited, the conversation so far, and the new
/// messages.
pub open spec fn prompt_messages(
    system_prompt: Seq<char>,
    done: Seq<HistoryMessage>,
    cur: Seq<HistoryMessage>,
    read_write: Seq<(Seq<char>, Seq<char>)>,
    read_only: Seq<(Seq<char>, Seq<char>)>,
) -> Seq<MessageView> {
    seq![MessageView { role: "system"@, content: system_prompt }] + files_turn(
        READ_ONLY_FILES_PREFIX@,
        read_only,
        READ_ONLY_FILES_REPLY@,
    ) + files_turn(CHAT_FILES_PREFIX@, read_write, CHAT_FILES_REPLY@) + as_messages(done)
        + as_messages(cur)
}

fn show_files(prefix: &str, files: &[(String, String)]) -> (out: String)
    ensures
        out@ == files_block(prefix@, file_views(files@)),
{
    let mut out = prefix.to_owned();
    out.append("\n");
    let mut i: usize = 0;
    assert(file_views(files@).take(0) =~= Seq::empty());
    while i < files.len()
        invariant
            i <= files.len(),
            out@ == files_block(prefix@, file_views(files@).take(i as int)),
        decreases files.len() - i,
    {
        let ghost before = out@;
        let ghost upto = file_views(files@).take(i + 1);
        assert(upto.drop_last() == file_views(files@).take(i as int));
        assert(upto.last() == (files@[i as int].0@, files@[i as int].1@));
        out.append(files[i].0.as_str());
        out.append("\n```\n");
        out.append(files[i].1.as_str());
        out.append("\n```\n");
        assert(out@ =~= before + fenced_file(files@[i as int].0@, files@[i as int].1@));
        i = i + 1;
    }
    assert(file_views(files@).take(files.len() as int) == file_views(files@));
    out
}

fn push_files_turn(out: &mut Vec<Message>, prefix: &str, files: &[(String, String)], reply: &str)
    ensures
        message_views(final(out)@) == message_views(old(out)@) + files_turn(
            prefix@,
            file_views(files@),
            reply@,
        ),
{
    if files.len() > 0 {
        out.push(Message { role: "user".to_owned(), content: show_files(prefix, files) });
        out.push(Message { role: "assistant".to_owned(), content: reply.to_owned() });
    }
    assert(message_views(out@) =~= message_views(old(out)@) + files_turn(
        prefix@,
        file_views(files@),
        reply@,
    ));
}

fn push_history(out: &mut Vec<Message>, history: &Vec<HistoryMessage>)
    ensures
        message_views(final(out)@) == message_views(old(out)@) + as_messages(history@),
{
    let mut i: usize = 0;
    assert(message_views(out@) =~= message_views(old(out)@) + as_messages(history@).take(0));
    while i < history.len()
        invariant
            i <= history.len(),
            message_views(out@) == message_views(old(out)@) + as_messages(history@).take(
                i as int,
            ),
        decreases history.len() - i,
    {
        let ghost before = message_views(out@);
        out.push(Message { role: history[i].role.clone(), content: history[i].content.clone() });
        assert(message_views(out@) =~= before.push(as_messages(history@)[i as int]));
        assert(as_messages(history@).take(i + 1) =~= as_messages(history@).take(i as int).push(
            as_messages(history@)[i as int],
        ));
        assert(message_views(out@) =~= message_views(old(out)@) + as_messages(history@).take(
            i + 1,
        ));
        i = i + 1;
    }
    assert(as_messages(history@).take(history.len() as int) == as_messages(history@));
}

/// Builds the messages of one turn, given the rendered system prompt.
pub fn build_prompt_messages(
    system_prompt: String,
    done_messages: Vec<HistoryMessage>,
    cur_messages: Vec<HistoryMessage>,
    read_write_files: &[(String, String)],
    read_only_files: &[(String, String)],
) -> (r: Vec<Message>)
    ensures
        message_views(r@) == prompt_messages(
            system_prompt@,
            done_messages@,
            cur_messages@,
            file_views(read_write_files@),
            file_views(read_only_files@),
        ),
{
    let mut out: Vec<Message> = Vec::new();
    out.push(Message { role: "system".to_owned(), content: system_prompt });
    assert(message_views(out@) =~= seq![
        MessageView { role: "system"@, content: system_prompt@ },
    ]);
    push_files_turn(&mut out, READ_ONLY_FILES_PREFIX, read_only_files, READ_ONLY_FILES_REPLY);
    push_files_turn(&mut out, CHAT_FILES_PREFIX, read_write_files, CHAT_FILES_REPLY);
    push_history(&mut out, &done_messages);
    push_history(&mut out, &cur_messages);
    out
}

/// What is left of `messages` behind a leading system message, with the
/// content of that message; the messages as they are where the first is no
/// system message.
pub open spec fn without_system(messages: Seq<MessageView>) -> (Option<Seq<char>>, Seq<MessageView>) {
    if messages.len() > 0 && messages[0].role == "system"@ {
        (Some(messages[0].content), messages.drop_first())
    } else {
        (None, messages)
    }
}

/// Takes a leading system message off the list and returns its content.
pub fn take_system_prompt(messages: &mut Vec<Message>) -> (r: Option<String>)
    ensures
        (crate::text::option_view(r), message_views(final(messages)@)) == without_system(
            message_views(old(messages)@),
        ),
{
    if messages.len() > 0 && same_chars(
        &chars_of(messages[0].role.as_str()),
        &chars_of("system"),
    ) {
        let first = messages.remove(0);
        assert(message_views(messages@) =~= message_views(old(messages)@).drop_first());
        Some(first.content)
    } else {
        None
    }
}

} // verus!
