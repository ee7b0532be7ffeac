//! What one run of a command decides on the store: where a message is
//! attached, which files it shows, and what is kept of it.

use crate::cli::{HistoryTarget, HistoryTargetView, ParentSource, ParentSourceView};
use crate::context::{
    calculate_final_context, recorded_hashes, recorded_paths, resolved, stage_cleared,
    FileMetadata, FinalContext, MessageMetadata,
};
use crate::db::{
    add_message, clear_context_stage, get_message_id_by_tag, set_chat_tag, tagged, well_formed,
    HistoryMessage, MessageStore, StoreError, StoreView,
};
use crate::sorted::{lookup, sorted_keys};
use crate::text::{chars_of, option_view, same_chars, string_of};
use vstd::prelude::*;

verus! {

/// What became of a tag that was pointed to a message.
#[derive(Debug, Clone, Copy, PartialEq, Eq, Structural)]
pub enum TagChange {
    /// The tag pointed to the message already.
    Unchanged,
    /// The tag pointed to the message `from` before.
    Moved { from: i64 },
    /// The tag is new.
    Created,
}

/// Points the tag `tag` to `message` and says what became of it.
pub fn move_tag(store: &mut MessageStore, tag: &str, message: i64) -> (r: Result<
    TagChange,
    StoreError,
>)
    requires
        well_formed(old(store)@),
    ensures
        well_formed(final(store)@),
        final(store)@.messages == old(store)@.messages,
        final(store)@.profile == old(store)@.profile,
        final(store)@.stage == old(store)@.stage,
        match r {
            Ok(change) => {
                &&& 1 <= message <= old(store)@.messages.len()
                &&& change == match tagged(old(store)@.tags, tag@) {
                    Some(from) => if from == message {
                        TagChange::Unchanged
                    } else {
                        TagChange::Moved { from: from as i64 }
                    },
                    None => TagChange::Created,
                }
                &&& forall|name: Seq<char>| #[trigger]
                    tagged(final(store)@.tags, name) == if name == tag@ {
                        Some(message as int)
                    } else {
                        tagged(old(store)@.tags, name)
                    }
            },
            Err(e) => !(1 <= message <= old(store)@.messages.len()) && e
                == (StoreError::MessageNotFound { id: message }) && final(store)@ == old(store)@,
        },
{
    if store.message(message).is_none() {
        return Err(StoreError::MessageNotFound { id: message });
    }
    match get_message_id_by_tag(store, tag) {
        Some(from) => {
            if from == message {
                Ok(TagChange::Unchanged)
            } else {
                match set_chat_tag(store, tag, message) {
                    Ok(_) => Ok(TagChange::Moved { from }),
                    Err(e) => Err(e),
                }
            }
        },
        None => match set_chat_tag(store, tag, message) {
            Ok(_) => Ok(TagChange::Created),
            Err(e) => Err(e),
        },
    }
}

/// Why no conversation was found for the `history` command.
#[derive(Debug, Clone, Copy, PartialEq, Eq, Structural)]
pub enum HistoryError {
    /// No tag is active.
    NoActiveChat,
    /// The active tag points to no message.
    ActiveChatDangling,
    /// No tag has the name.
    TagNotFound,
    /// The target is not the decimal form of an id.
    BadMessageId,
    /// No message has the id.
    MessageNotFound { id: i64 },
}

/// What `str::parse` makes of `text` when an `i64` is asked for: the
/// number, or nothing where it returns an error.
pub uninterp spec fn parsed_i64(text: Seq<char>) -> Option<i64>;

/// The error of `str::parse` for an integer, as a value that is only
/// passed on.
#[verifier::external_type_specification]
#[verifier::external_body]
pub struct ExParseIntError(core::num::ParseIntError);

/// Reads `text` as an `i64` with `str::parse`. The contract only names the
/// result.
#[verifier::external_body]
fn parse_i64(text: &str) -> (r: Result<i64, core::num::ParseIntError>)
    ensures
        match r {
            Ok(n) => parsed_i64(text@) == Some(n),
            Err(_) => parsed_i64(text@) is None,
        },
{
    text.parse::<i64>()
}

/// The message at which the conversation that is asked for ends, given
/// what the id of a message target is read as.
pub open spec fn history_leaf_of(
    store: StoreView,
    target: HistoryTargetView,
    id_read: Option<i64>,
) -> Result<i64, HistoryError> {
    match target {
        HistoryTargetView::ActiveChat => match store.profile.active_chat_tag {
            None => Err(HistoryError::NoActiveChat),
            Some(active) => match tagged(store.tags, active@) {
                None => Err(HistoryError::ActiveChatDangling),
                Some(id) => Ok(id as i64),
            },
        },
        HistoryTargetView::Tag { name } => match tagged(store.tags, name) {
            None => Err(HistoryError::TagNotFound),
            Some(id) => Ok(id as i64),
        },
        HistoryTargetView::Message { id } => match id_read {
            None => Err(HistoryError::BadMessageId),
            Some(n) => if 1 <= n <= store.messages.len() {
                Ok(n)
            } else {
                Err(HistoryError::MessageNotFound { id: n })
            },
        },
    }
}

/// The message of a target that is no message id, or of a message id that
/// was read as `id_read`.
pub fn history_leaf_with(store: &MessageStore, target: &HistoryTarget, id_read: Option<i64>) -> (r:
    Result<i64, HistoryError>)
    requires
        well_formed(store@),
    ensures
        r == history_leaf_of(store@, target@, id_read),
{
    match target {
        HistoryTarget::ActiveChat => match crate::db::get_active_chat_tag(store) {
            None => Err(HistoryError::NoActiveChat),
            Some(active) => match get_message_id_by_tag(store, active.as_str()) {
                None => Err(HistoryError::ActiveChatDangling),
                Some(id) => Ok(id),
            },
        },
        HistoryTarget::Tag { name } => match get_message_id_by_tag(store, name.as_str()) {
            None => Err(HistoryError::TagNotFound),
            Some(id) => Ok(id),
        },
        HistoryTarget::Message { id } => match id_read {
            None => Err(HistoryError::BadMessageId),
            Some(n) => {
                if store.message(n).is_some() {
                    Ok(n)
                } else {
                    Err(HistoryError::MessageNotFound { id: n })
                }
            },
        },
    }
}

/// The message at which the conversation that is asked for ends.
pub fn history_leaf(store: &MessageStore, target: &HistoryTarget) -> (r: Result<
    i64,
    HistoryError,
>)
    requires
        well_formed(store@),
    ensures
        r == history_leaf_of(
            store@,
            target@,
            match target@ {
                HistoryTargetView::Message { id } => parsed_i64(id),
                _ => None,
            },
        ),
{
    let id_read = match target {
        HistoryTarget::Message { id } => match parse_i64(id.as_str()) {
            Ok(n) => Some(n),
            Err(_) => None,
        },
        _ => None,
    };
    history_leaf_with(store, target, id_read)
}

/// The content of the last message of `history` whose role is `user`.
pub open spec fn last_user_content(history: Seq<HistoryMessage>) -> Option<Seq<char>>
    decreases history.len(),
{
    if history.len() == 0 {
        None
    } else if history.last().role@ == "user"@ {
        Some(history.last().content@)
    } else {
        last_user_content(history.drop_last())
    }
}

/// `s` with each line feed replaced by a space.
pub open spec fn on_one_line(s: Seq<char>) -> Seq<char> {
    Seq::new(
        s.len(),
        |i: int|
            if s[i] == '\n' {
                ' '
            } else {
                s[i]
            },
    )
}

/// The first `n` characters of `s`, or all of `s` where it holds fewer.
pub open spec fn first_chars(s: Seq<char>, n: int) -> Seq<char> {
    if s.len() <= n {
        s
    } else {
        s.take(n)
    }
}

/// The line that stands for a conversation in a list: the first 70
/// characters of its last user message, or of `fallback` where it has none,
/// on one line.
pub open spec fn preview_of(history: Seq<HistoryMessage>, fallback: Seq<char>) -> Seq<char> {
    on_one_line(
        first_chars(
            match last_user_content(history) {
                Some(content) => content,
                None => fallback,
            },
            70,
        ),
    )
}

/// The line that stands for a conversation in a list.
pub fn preview(history: &Vec<HistoryMessage>, fallback: &str) -> (r: String)
    ensures
        r@ == preview_of(history@, fallback@),
{
    let user = chars_of("user");
    let mut source: Vec<char> = chars_of(fallback);
    let mut i: usize = history.len();
    let mut found = false;
    assert(history@.take(i as int) == history@);
    while i > 0 && !found
        invariant
            i <= history.len(),
            user@ == "user"@,
            !found ==> source@ == fallback@ && last_user_content(history@) == last_user_content(
                history@.take(i as int),
            ),
            found ==> last_user_content(history@) == Some(source@),
        decreases i + if found { 0int } else { 1int },
    {
        assert(history@.take(i as int).drop_last() == history@.take(i - 1));
        assert(history@.take(i as int).last() == history@[i - 1]);
        if same_chars(&chars_of(history[i - 1].role.as_str()), &user) {
            source = chars_of(history[i - 1].content.as_str());
            found = true;
        } else {
            i = i - 1;
        }
    }
    proof {
        if !found {
            assert(history@.take(0).len() == 0);
        }
    }
    let ghost text = match last_user_content(history@) {
        Some(content) => content,
        None => fallback@,
    };
    assert(source@ == text);
    let n: usize = if source.len() <= 70 {
        source.len()
    } else {
        70
    };
    let mut out: Vec<char> = Vec::new();
    let mut k: usize = 0;
    while k < n
        invariant
            k <= n <= source.len(),
            out@.len() == k,
            forall|j: int|
                0 <= j < k ==> out@[j] == if source@[j] == '\n' {
                    ' '
                } else {
                    source@[j]
                },
        decreases n - k,
    {
        if source[k] == '\n' {
            out.push(' ');
        } else {
            out.push(source[k]);
        }
        k = k + 1;
    }
    assert(out@ =~= on_one_line(first_chars(text, 70)));
    string_of(&out)
}

/// Where a message is attached, and the tag that moves on to the answer.
#[derive(Debug, PartialEq, Eq)]
pub struct TurnStart {
    pub parent_id: Option<i64>,
    pub tag_for_update: Option<String>,
}

/// The id that a tag points to, as an optional `i64`.
pub open spec fn tagged_id(store: StoreView, tag: Seq<char>) -> Option<i64> {
    match tagged(store.tags, tag) {
        Some(id) => Some(id as i64),
        None => None,
    }
}

/// Finds the message below which a new message is attached. A tag that
/// points to no message starts a new conversation, and still moves on.
pub fn start_turn(store: &MessageStore, source: &ParentSource) -> (r: TurnStart)
    requires
        well_formed(store@),
    ensures
        (r.parent_id, option_view(r.tag_for_update)) == match source@ {
            ParentSourceView::Root => (None, None),
            ParentSourceView::Message { id } => (Some(id), None),
            ParentSourceView::Chat { tag } => (tagged_id(store@, tag), Some(tag)),
            ParentSourceView::ActiveChat => match store@.profile.active_chat_tag {
                Some(active) => (tagged_id(store@, active@), Some(active@)),
                None => (None, None),
            },
        },
{
    match source {
        ParentSource::Root => TurnStart { parent_id: None, tag_for_update: None },
        ParentSource::Message { id } => TurnStart { parent_id: Some(*id), tag_for_update: None },
        ParentSource::Chat { tag } => TurnStart {
            parent_id: get_message_id_by_tag(store, tag.as_str()),
            tag_for_update: Some(tag.clone()),
        },
        ParentSource::ActiveChat => match crate::db::get_active_chat_tag(store) {
            Some(active) => TurnStart {
                parent_id: get_message_id_by_tag(store, active.as_str()),
                tag_for_update: Some(active),
            },
            None => TurnStart { parent_id: None, tag_for_update: None },
        },
    }
}

/// What the message below `parent_id` inherits: what the parent of
/// `parent_id` recorded. `parent_id` is the answer of the turn before, and
/// its parent the message of the user that carries the record. Nothing is
/// inherited without a parent, without a record, or where it is ignored.
pub open spec fn inherited_of(store: StoreView, parent_id: Option<i64>, ignore_inherited: bool) -> (
    Seq<Seq<char>>,
    Seq<Seq<char>>,
) {
    let nothing = (Seq::<Seq<char>>::empty(), Seq::<Seq<char>>::empty());
    match parent_id {
        Some(p) => if !ignore_inherited && 1 <= p <= store.messages.len() {
            match store.messages[p - 1].parent_id {
                Some(u) => if 1 <= u <= store.messages.len() {
                    match store.messages[u - 1].metadata {
                        Some(m) => (
                            recorded_paths(m.read_write_files@),
                            recorded_paths(m.read_only_files@),
                        ),
                        None => nothing,
                    }
                } else {
                    nothing
                },
                None => nothing,
            }
        } else {
            nothing
        },
        None => nothing,
    }
}

/// The files that the message below `parent_id` shows: what it inherits,
/// merged with what is staged.
pub fn resolve_context(store: &MessageStore, parent_id: Option<i64>, ignore_inherited: bool) -> (r:
    FinalContext)
    ensures
        sorted_keys(r@),
        forall|p: Seq<char>| #[trigger]
            lookup(r@, p) == resolved(
                inherited_of(store@, parent_id, ignore_inherited).0,
                inherited_of(store@, parent_id, ignore_inherited).1,
                store@.stage@,
                p,
            ),
{
    let nothing = MessageMetadata::default();
    assert(recorded_paths(nothing.read_write_files@) =~= Seq::empty());
    assert(recorded_paths(nothing.read_only_files@) =~= Seq::empty());
    let stage = store.stage_ref();
    let mut inherited: &MessageMetadata = &nothing;
    if !ignore_inherited {
        match parent_id {
            Some(p) => match crate::db::get_parent_id(store, p) {
                Some(u) => match crate::db::get_message_metadata(store, u) {
                    Some(m) => {
                        inherited = m;
                    },
                    None => {},
                },
                None => {},
            },
            None => {},
        }
    }
    calculate_final_context(inherited, stage)
}

/// `SHA-256` of the UTF-8 bytes of a text, in lower-case hexadecimal
/// digits, as `sha2::Sha256` and the `LowerHex` form of its output give it.
pub uninterp spec fn sha256_hex(content: Seq<char>) -> Seq<char>;

/// Hashes `content` with `sha2::Sha256::digest` and writes the digest in
/// lower-case hexadecimal digits. The contract only names the result.
#[verifier::external_body]
fn hash_content(content: &str) -> (r: String)
    ensures
        r@ == sha256_hex(content@),
{
    format!("{:x}", <sha2::Sha256 as sha2::Digest>::digest(content.as_bytes()))
}

/// The files of a context with their contents, and what the message
/// records of them.
#[derive(Debug)]
pub struct ContextSnapshot {
    pub read_write_files: Vec<(String, String)>,
    pub read_only_files: Vec<(String, String)>,
    pub metadata: MessageMetadata,
}

/// The files among `entries` that carry the flag `read_only`, each with its
/// content, in order.
pub open spec fn files_flagged(
    entries: Seq<(Seq<char>, bool)>,
    contents: Seq<Seq<char>>,
    read_only: bool,
) -> Seq<(Seq<char>, Seq<char>)>
    decreases entries.len(),
{
    if entries.len() == 0 || contents.len() != entries.len() {
        Seq::empty()
    } else if entries.last().1 == read_only {
        files_flagged(entries.drop_last(), contents.drop_last(), read_only).push(
            (entries.last().0, contents.last()),
        )
    } else {
        files_flagged(entries.drop_last(), contents.drop_last(), read_only)
    }
}

/// The paths of a list of files with contents.
pub open spec fn paths_of(files: Seq<(Seq<char>, Seq<char>)>) -> Seq<Seq<char>> {
    Seq::new(files.len(), |i: int| files[i].0)
}

/// The hashes of the contents of a list of files.
pub open spec fn hashes_of(files: Seq<(Seq<char>, Seq<char>)>) -> Seq<Seq<char>> {
    Seq::new(files.len(), |i: int| sha256_hex(files[i].1))
}

/// Parts the files of a context, given the content of each in the order of
/// the context, into those that may be edited and those that may only be
/// read, and records the path and the hash of each. Nothing is returned
/// where the number of contents is not the number of files.
pub fn snapshot_context(context: &FinalContext, contents: &Vec<String>) -> (r: Option<
    ContextSnapshot,
>)
    ensures
        r is Some <==> contents@.len() == context@.len(),
        match r {
            Some(s) => {
                let read_write = files_flagged(context@, crate::text::texts(contents@), false);
                let read_only = files_flagged(context@, crate::text::texts(contents@), true);
                &&& crate::prompt::file_views(s.read_write_files@) == read_write
                &&& crate::prompt::file_views(s.read_only_files@) == read_only
                &&& recorded_paths(s.metadata.read_write_files@) == paths_of(read_write)
                &&& recorded_hashes(s.metadata.read_write_files@) == hashes_of(read_write)
                &&& recorded_paths(s.metadata.read_only_files@) == paths_of(read_only)
                &&& recorded_hashes(s.metadata.read_only_files@) == hashes_of(read_only)
            },
            None => true,
        },
{
    let entries = context.entries();
    if contents.len() != entries.len() {
        return None;
    }
    let mut read_write_files: Vec<(String, String)> = Vec::new();
    let mut read_only_files: Vec<(String, String)> = Vec::new();
    let mut recorded_read_write: Vec<FileMetadata> = Vec::new();
    let mut recorded_read_only: Vec<FileMetadata> = Vec::new();
    let ghost all = context@;
    let ghost texts = crate::text::texts(contents@);
    let mut i: usize = 0;
    proof {
        assert(all.take(0) =~= Seq::empty());
        assert(crate::prompt::file_views(read_write_files@) =~= Seq::empty());
        assert(crate::prompt::file_views(read_only_files@) =~= Seq::empty());
        assert(recorded_paths(recorded_read_write@) =~= paths_of(Seq::empty()));
        assert(recorded_hashes(recorded_read_write@) =~= hashes_of(Seq::empty()));
        assert(recorded_paths(recorded_read_only@) =~= paths_of(Seq::empty()));
        assert(recorded_hashes(recorded_read_only@) =~= hashes_of(Seq::empty()));
    }
    while i < entries.len()
        invariant
            i <= entries.len(),
            entries.len() == contents.len(),
            all == context@,
            all == crate::context::entry_views(entries@),
            texts == crate::text::texts(contents@),
            same_lists(
                read_write_files@,
                recorded_read_write@,
                files_flagged(all.take(i as int), texts.take(i as int), false),
            ),
            same_lists(
                read_only_files@,
                recorded_read_only@,
                files_flagged(all.take(i as int), texts.take(i as int), true),
            ),
        decreases entries.len() - i,
    {
        let ghost before_rw = files_flagged(all.take(i as int), texts.take(i as int), false);
        let ghost before_ro = files_flagged(all.take(i as int), texts.take(i as int), true);
        proof {
            assert(all.take(i + 1).drop_last() == all.take(i as int));
            assert(texts.take(i + 1).drop_last() == texts.take(i as int));
            assert(all.take(i + 1).last() == all[i as int]);
            assert(texts.take(i + 1).last() == texts[i as int]);
        }
        let path = entries[i].path.clone();
        let content = contents[i].clone();
        let record = FileMetadata { path: path.clone(), hash: hash_content(content.as_str()) };
        let ghost shown = (all[i as int].0, texts[i as int]);
        if entries[i].read_only {
            proof {
                lemma_same_lists_push(
                    read_only_files@,
                    recorded_read_only@,
                    before_ro,
                    (path, content),
                    record,
                    shown,
                );
            }
            read_only_files.push((path, content));
            recorded_read_only.push(record);
        } else {
            proof {
                lemma_same_lists_push(
                    read_write_files@,
                    recorded_read_write@,
                    before_rw,
                    (path, content),
                    record,
                    shown,
                );
            }
            read_write_files.push((path, content));
            recorded_read_write.push(record);
        }
        i = i + 1;
    }
    assert(all.take(entries.len() as int) == all);
    assert(texts.take(entries.len() as int) == texts);
    Some(
        ContextSnapshot {
            read_write_files,
            read_only_files,
            metadata: MessageMetadata {
                read_write_files: recorded_read_write,
                read_only_files: recorded_read_only,
            },
        },
    )
}

/// Whether `files` and `records` hold the given files, and the paths and
/// hashes of their contents.
pub open spec fn same_lists(
    files: Seq<(String, String)>,
    records: Seq<FileMetadata>,
    wanted: Seq<(Seq<char>, Seq<char>)>,
) -> bool {
    &&& files.len() == wanted.len()
    &&& records.len() == wanted.len()
    &&& crate::prompt::file_views(files) == wanted
    &&& recorded_paths(records) == paths_of(wanted)
    &&& recorded_hashes(records) == hashes_of(wanted)
}

proof fn lemma_same_lists_push(
    files: Seq<(String, String)>,
    records: Seq<FileMetadata>,
    wanted: Seq<(Seq<char>, Seq<char>)>,
    file: (String, String),
    record: FileMetadata,
    shown: (Seq<char>, Seq<char>),
)
    requires
        same_lists(files, records, wanted),
        file.0@ == shown.0,
        file.1@ == shown.1,
        record.path@ == shown.0,
        record.hash@ == sha256_hex(shown.1),
    ensures
        same_lists(files.push(file), records.push(record), wanted.push(shown)),
{
    let n = wanted.len() as int;
    assert forall|j: int| 0 <= j < n implies (files[j].0@, files[j].1@) == wanted[j]
        && records[j].path@ == wanted[j].0 && records[j].hash@ == sha256_hex(wanted[j].1) by {
        assert(crate::prompt::file_views(files)[j] == wanted[j]);
        assert(recorded_paths(records)[j] == paths_of(wanted)[j]);
        assert(recorded_hashes(records)[j] == hashes_of(wanted)[j]);
    }
    assert(crate::prompt::file_views(files.push(file)) =~= wanted.push(shown));
    assert(recorded_paths(records.push(record)) =~= paths_of(wanted.push(shown)));
    assert(recorded_hashes(records.push(record)) =~= hashes_of(wanted.push(shown)));
}

/// Ends a turn that was sent with success: the stage named `default` is
/// emptied, the answer is appended below the message of the user, and the
/// tag of the turn, if there is one, moves on to the answer.
pub fn finish_turn(
    store: &mut MessageStore,
    turn: &TurnStart,
    user_message_id: i64,
    response: &str,
    created_at: &str,
) -> (r: Result<i64, StoreError>)
    requires
        well_formed(old(store)@),
    ensures
        well_formed(final(store)@),
        final(store)@.profile == old(store)@.profile,
        r is Ok <==> 1 <= user_message_id <= old(store)@.messages.len() && old(
            store,
        )@.messages.len() + 1 < i64::MAX,
        r is Err ==> final(store)@ == old(store)@,
        match r {
            Ok(id) => {
                &&& id == old(store)@.messages.len() + 1
                &&& final(store)@.stage@ == stage_cleared(old(store)@.stage@)
                &&& final(store)@.messages.drop_last() == old(store)@.messages
                &&& final(store)@.messages.last().id == id
                &&& final(store)@.messages.last().parent_id == Some(user_message_id)
                &&& final(store)@.messages.last().role@ == "assistant"@
                &&& final(store)@.messages.last().content@ == response@
                &&& final(store)@.messages.last().metadata is None
                &&& final(store)@.messages.last().created_at@ == created_at@
                &&& forall|name: Seq<char>| #[trigger]
                    tagged(final(store)@.tags, name) == if Some(name) == option_view(
                        turn.tag_for_update,
                    ) {
                        Some(id as int)
                    } else {
                        tagged(old(store)@.tags, name)
                    }
            },
            Err(e) => e == if 1 <= user_message_id <= old(store)@.messages.len() {
                StoreError::Full
            } else {
                StoreError::MessageNotFound { id: user_message_id }
            },
        },
{
    if store.message(user_message_id).is_none() {
        return Err(StoreError::MessageNotFound { id: user_message_id });
    }
    if (store.message_count() as u64) + 1 >= (i64::MAX as u64) {
        return Err(StoreError::Full);
    }
    clear_context_stage(store, "default");
    let id = match add_message(store, Some(user_message_id), "assistant", response, None, created_at) {
        Ok(id) => id,
        Err(e) => {
            return Err(e);
        },
    };
    match &turn.tag_for_update {
        Some(tag) => {
            let moved = set_chat_tag(store, tag.as_str(), id);
            assert(moved is Ok);
        },
        None => {},
    }
    Ok(id)
}

} // verus!
