//! The message store: an append-only tree of messages with named pointers
//! into it, the one profile and the one context stage.

use crate::context::{stage_added, stage_cleared, stage_removed, MessageMetadata, StageView};
use crate::sorted::{lemma_insert, lemma_lookup_at, lemma_remove, lemma_update, lookup, sorted_keys};
use crate::text::{chars_of, copy_texts, lex_less, option_view, precedes, same_chars, texts};
use vstd::prelude::*;

pub use crate::context::ContextStage;

verus! {

/// A named pointer to a message.
#[derive(Debug, Clone, PartialEq, Eq)]
pub struct Tag {
    pub name: String,
    pub message_id: i64,
}

/// A message without children, with the tag that points to it, if any.
#[derive(Debug, Clone, PartialEq, Eq)]
pub struct Leaf {
    pub id: i64,
    pub created_at: String,
    pub content: String,
    pub tag: Option<String>,
}

/// One message of a conversation, as it is shown and sent.
#[derive(Debug, Clone, PartialEq, Eq)]
pub struct HistoryMessage {
    pub role: String,
    pub content: String,
    pub created_at: String,
}

/// The settings of the user.
#[derive(Debug, Clone, PartialEq, Eq)]
pub struct Profile {
    pub name: String,
    pub active_chat_tag: Option<String>,
    pub project_root: Option<String>,
}

/// A message as the store keeps it.
#[derive(Debug)]
pub struct StoredMessage {
    pub id: i64,
    pub parent_id: Option<i64>,
    pub role: String,
    pub content: String,
    pub metadata: Option<MessageMetadata>,
    pub created_at: String,
}

/// Why the store refused.
#[derive(Debug, Clone, Copy, PartialEq, Eq, Structural)]
pub enum StoreError {
    /// No message has this id.
    MessageNotFound { id: i64 },
    /// No profile has this name.
    ProfileNotFound,
    /// No context stage has this name.
    StageNotFound,
    /// No id is left for another message.
    Full,
}

/// The store.
pub struct MessageStore {
    messages: Vec<StoredMessage>,
    tags: Vec<Tag>,
    profile: Profile,
    stage: ContextStage,
}

/// What a store holds.
pub ghost struct StoreView {
    pub messages: Seq<StoredMessage>,
    pub tags: Seq<Tag>,
    pub profile: Profile,
    pub stage: ContextStage,
}

impl View for MessageStore {
    type V = StoreView;

    closed spec fn view(&self) -> StoreView {
        StoreView {
            messages: self.messages@,
            tags: self.tags@,
            profile: self.profile,
            stage: self.stage,
        }
    }
}

/// The id of the parent of `m`, or 0 where `m` is a root.
pub open spec fn parent_of(m: StoredMessage) -> int {
    match m.parent_id {
        Some(p) => p as int,
        None => 0,
    }
}

/// Whether the messages form a tree that only grew: message `i` has the id
/// `i + 1`, and the parent of a message that is no root came before it.
pub open spec fn tree(messages: Seq<StoredMessage>) -> bool {
    &&& messages.len() < i64::MAX
    &&& forall|i: int| 0 <= i < messages.len() ==> (#[trigger] messages[i]).id == i + 1
    &&& forall|i: int|
        0 <= i < messages.len() ==> 0 <= parent_of(#[trigger] messages[i]) <= i
}

/// What a list of tags holds: each name with the id it points to.
pub open spec fn tag_views(tags: Seq<Tag>) -> Seq<(Seq<char>, int)> {
    Seq::new(tags.len(), |i: int| (tags[i].name@, tags[i].message_id as int))
}

/// Whether the tags are in the order of their names, each name once, and
/// each points to one of `count` messages.
pub open spec fn tags_in_order(tags: Seq<Tag>, count: int) -> bool {
    &&& sorted_keys(tag_views(tags))
    &&& forall|i: int| 0 <= i < tags.len() ==> 1 <= (#[trigger] tags[i]).message_id <= count
}

/// Whether a store is well formed.
pub open spec fn well_formed(store: StoreView) -> bool {
    &&& tree(store.messages)
    &&& tags_in_order(store.tags, store.messages.len() as int)
    &&& store.profile.name@ == "default"@
    &&& store.stage.name@ == "default"@
}

/// The message that the tag `name` points to.
pub open spec fn tagged(tags: Seq<Tag>, name: Seq<char>) -> Option<int> {
    lookup(tag_views(tags), name)
}

/// The first tag, in the order of the names, that points to message `id`.
pub open spec fn tag_of(tags: Seq<Tag>, id: int) -> Option<Seq<char>>
    decreases tags.len(),
{
    if tags.len() == 0 {
        None
    } else if tags[0].message_id == id {
        Some(tags[0].name@)
    } else {
        tag_of(tags.drop_first(), id)
    }
}

impl MessageStore {
    /// An empty store, with the profile and the context stage named
    /// `default`.
    pub fn new() -> (store: Self)
        ensures
            well_formed(store@),
            store@.messages.len() == 0,
            store@.tags.len() == 0,
            store@.profile.active_chat_tag is None,
            store@.profile.project_root is None,
            store@.stage@.read_write_files.len() == 0,
            store@.stage@.read_only_files.len() == 0,
            store@.stage@.dropped_files.len() == 0,
    {
        MessageStore {
            messages: Vec::new(),
            tags: Vec::new(),
            profile: Profile {
                name: "default".to_owned(),
                active_chat_tag: None,
                project_root: None,
            },
            stage: ContextStage {
                name: "default".to_owned(),
                read_write_files: Vec::new(),
                read_only_files: Vec::new(),
                dropped_files: Vec::new(),
            },
        }
    }

    /// Whether the store is well formed.
    pub fn is_well_formed(&self) -> (r: bool)
        ensures
            r == well_formed(self@),
    {
        if (self.messages.len() as u64) >= (i64::MAX as u64) {
            return false;
        }
        let mut i: usize = 0;
        while i < self.messages.len()
            invariant
                i <= self.messages.len() < i64::MAX,
                forall|k: int| 0 <= k < i ==> (#[trigger] self.messages@[k]).id == k + 1,
                forall|k: int|
                    0 <= k < i ==> 0 <= parent_of(#[trigger] self.messages@[k]) <= k,
            decreases self.messages.len() - i,
        {
            let m = &self.messages[i];
            if m.id != ((i as u64) + 1) as i64 {
                return false;
            }
            match m.parent_id {
                Some(p) => {
                    if p < 0 || (p as u64) > (i as u64) {
                        return false;
                    }
                },
                None => {},
            }
            i = i + 1;
        }
        let mut j: usize = 0;
        while j < self.tags.len()
            invariant
                j <= self.tags.len(),
                forall|k: int|
                    0 <= k < j ==> 1 <= (#[trigger] self.tags@[k]).message_id
                        <= self.messages@.len(),
                forall|a: int, b: int|
                    0 <= a < b < j ==> lex_less(
                        (#[trigger] tag_views(self.tags@)[a]).0,
                        (#[trigger] tag_views(self.tags@)[b]).0,
                    ),
            decreases self.tags.len() - j,
        {
            let t = &self.tags[j];
            if t.message_id < 1 || (t.message_id as u64) > (self.messages.len() as u64) {
                return false;
            }
            if j > 0 {
                let before = chars_of(self.tags[j - 1].name.as_str());
                let here = chars_of(t.name.as_str());
                if !precedes(&before, &here) {
                    assert(!lex_less(
                        tag_views(self.tags@)[j - 1].0,
                        tag_views(self.tags@)[j as int].0,
                    ));
                    return false;
                }
                proof {
                    let e = tag_views(self.tags@);
                    assert forall|a: int| 0 <= a < j implies lex_less(
                        (#[trigger] e[a]).0,
                        e[j as int].0,
                    ) by {
                        if a < j - 1 {
                            assert(lex_less(e[a].0, e[j - 1].0));
                            crate::text::lemma_lex_transitive(e[a].0, e[j - 1].0, e[j as int].0);
                        }
                    }
                }
            }
            j = j + 1;
        }
        let wanted = chars_of("default");
        same_chars(&chars_of(self.profile.name.as_str()), &wanted) && same_chars(
            &chars_of(self.stage.name.as_str()),
            &wanted,
        )
    }

    /// The number of messages.
    pub fn message_count(&self) -> (n: usize)
        ensures
            n == self@.messages.len(),
    {
        self.messages.len()
    }

    fn at(&self, id: i64) -> (r: &StoredMessage)
        requires
            1 <= id <= self@.messages.len(),
        ensures
            *r == self@.messages[id - 1],
    {
        let n = self.messages.len();
        &self.messages[(id - 1) as usize]
    }

    /// The context stage.
    pub fn stage_ref(&self) -> (r: &ContextStage)
        ensures
            *r == self@.stage,
    {
        &self.stage
    }

    /// The message with the given id.
    pub fn message(&self, id: i64) -> (r: Option<&StoredMessage>)
        ensures
            match r {
                Some(m) => 1 <= id <= self@.messages.len() && *m == self@.messages[id - 1],
                None => !(1 <= id <= self@.messages.len()),
            },
    {
        if id < 1 || (id as u64) > (self.messages.len() as u64) {
            None
        } else {
            Some(&self.messages[(id - 1) as usize])
        }
    }
}

/// Whether a message has the given id.
pub fn message_exists(store: &MessageStore, id: i64) -> (r: bool)
    ensures
        r == (1 <= id <= store@.messages.len()),
{
    store.message(id).is_some()
}

/// The id of the parent of a message; none for a root and for an id that no
/// message has.
pub fn get_parent_id(store: &MessageStore, message_id: i64) -> (r: Option<i64>)
    ensures
        r == if 1 <= message_id <= store@.messages.len() {
            store@.messages[message_id - 1].parent_id
        } else {
            None
        },
{
    match store.message(message_id) {
        Some(m) => m.parent_id,
        None => None,
    }
}

/// What a message recorded of its context; none for an id that no message
/// has.
pub fn get_message_metadata(store: &MessageStore, message_id: i64) -> (r: Option<
    &MessageMetadata,
>)
    ensures
        match r {
            Some(m) => 1 <= message_id <= store@.messages.len() && store@.messages[message_id
                - 1].metadata == Some(*m),
            None => !(1 <= message_id <= store@.messages.len()) || store@.messages[message_id
                - 1].metadata is None,
        },
{
    match store.message(message_id) {
        Some(m) => m.metadata.as_ref(),
        None => None,
    }
}

/// Appends a message below `parent_id`, or as a root, and returns its id:
/// the number of messages that the store then holds.
pub fn add_message(
    store: &mut MessageStore,
    parent_id: Option<i64>,
    role: &str,
    content: &str,
    metadata: Option<MessageMetadata>,
    created_at: &str,
) -> (r: Result<i64, StoreError>)
    requires
        well_formed(old(store)@),
    ensures
        well_formed(final(store)@),
        final(store)@.tags == old(store)@.tags,
        final(store)@.profile == old(store)@.profile,
        final(store)@.stage == old(store)@.stage,
        match parent_id {
            Some(p) if !(1 <= p <= old(store)@.messages.len()) => r == Err::<i64, StoreError>(
                StoreError::MessageNotFound { id: p },
            ) && final(store)@ == old(store)@,
            _ => if old(store)@.messages.len() + 1 >= i64::MAX {
                r == Err::<i64, StoreError>(StoreError::Full) && final(store)@ == old(store)@
            } else {
                &&& r == Ok::<i64, StoreError>((old(store)@.messages.len() + 1) as i64)
                &&& final(store)@.messages.len() == old(store)@.messages.len() + 1
                &&& final(store)@.messages.drop_last() == old(store)@.messages
                &&& final(store)@.messages.last().id == old(store)@.messages.len() + 1
                &&& final(store)@.messages.last().parent_id == parent_id
                &&& final(store)@.messages.last().role@ == role@
                &&& final(store)@.messages.last().content@ == content@
                &&& final(store)@.messages.last().metadata == metadata
                &&& final(store)@.messages.last().created_at@ == created_at@
            },
        },
{
    match parent_id {
        Some(p) => {
            if p < 1 || (p as u64) > (store.messages.len() as u64) {
                return Err(StoreError::MessageNotFound { id: p });
            }
        },
        None => {},
    }
    if (store.messages.len() as u64) + 1 >= (i64::MAX as u64) {
        return Err(StoreError::Full);
    }
    let id: i64 = ((store.messages.len() as u64) + 1) as i64;
    let message = StoredMessage {
        id,
        parent_id,
        role: role.to_owned(),
        content: content.to_owned(),
        metadata,
        created_at: created_at.to_owned(),
    };
    store.messages.push(message);
    assert(store@.messages.drop_last() == old(store)@.messages);
    Ok(id)
}

fn find_tag(tags: &Vec<Tag>, name: &str) -> (r: (usize, bool))
    requires
        sorted_keys(tag_views(tags@)),
    ensures
        r.0 <= tags.len(),
        forall|k: int| 0 <= k < r.0 ==> lex_less((#[trigger] tag_views(tags@)[k]).0, name@),
        r.1 ==> r.0 < tags.len() && tags@[r.0 as int].name@ == name@,
        !r.1 && r.0 < tags.len() ==> !lex_less(tags@[r.0 as int].name@, name@)
            && tags@[r.0 as int].name@ != name@,
        r.1 ==> tagged(tags@, name@) == Some(tags@[r.0 as int].message_id as int),
        !r.1 ==> tagged(tags@, name@) is None,
{
    let wanted = chars_of(name);
    let mut pos: usize = 0;
    while pos < tags.len() && precedes(&chars_of(tags[pos].name.as_str()), &wanted)
        invariant
            pos <= tags.len(),
            wanted@ == name@,
            forall|k: int| 0 <= k < pos ==> lex_less((#[trigger] tag_views(tags@)[k]).0, name@),
        decreases tags.len() - pos,
    {
        pos = pos + 1;
    }
    let found = pos < tags.len() && same_chars(&chars_of(tags[pos].name.as_str()), &wanted);
    proof {
        let e = tag_views(tags@);
        if found {
            assert(e[pos as int].0 == name@);
            lemma_lookup_at(e, pos as int);
        } else if crate::sorted::lists(e, name@) {
            let i = choose|i: int| 0 <= i < e.len() && #[trigger] e[i].0 == name@;
            crate::text::lemma_lex_irreflexive(name@);
            if i < pos {
                assert(lex_less(e[i].0, name@));
            } else if i > pos {
                assert(lex_less(e[pos as int].0, e[i].0));
            }
        }
    }
    (pos, found)
}

/// The message that the tag `tag` points to.
pub fn get_message_id_by_tag(store: &MessageStore, tag: &str) -> (r: Option<i64>)
    requires
        well_formed(store@),
    ensures
        match r {
            Some(id) => tagged(store@.tags, tag@) == Some(id as int),
            None => tagged(store@.tags, tag@) is None,
        },
{
    let (pos, found) = find_tag(&store.tags, tag);
    if found {
        Some(store.tags[pos].message_id)
    } else {
        None
    }
}

/// Points the tag `tag` to `message_id`, whether the tag is new or not.
pub fn set_chat_tag(store: &mut MessageStore, tag: &str, message_id: i64) -> (r: Result<
    (),
    StoreError,
>)
    requires
        well_formed(old(store)@),
    ensures
        well_formed(final(store)@),
        final(store)@.messages == old(store)@.messages,
        final(store)@.profile == old(store)@.profile,
        final(store)@.stage == old(store)@.stage,
        r is Ok <==> 1 <= message_id <= old(store)@.messages.len(),
        r is Err ==> r == Err::<(), StoreError>(StoreError::MessageNotFound { id: message_id })
            && final(store)@ == old(store)@,
        r is Ok ==> forall|name: Seq<char>| #[trigger]
            tagged(final(store)@.tags, name) == if name == tag@ {
                Some(message_id as int)
            } else {
                tagged(old(store)@.tags, name)
            },
{
    if message_id < 1 || (message_id as u64) > (store.messages.len() as u64) {
        return Err(StoreError::MessageNotFound { id: message_id });
    }
    let (pos, found) = find_tag(&store.tags, tag);
    let ghost before = tag_views(store.tags@);
    let entry = Tag { name: tag.to_owned(), message_id };
    if found {
        store.tags.set(pos, entry);
        proof {
            lemma_update(before, pos as int, message_id as int);
            assert(tag_views(store.tags@) =~= before.update(
                pos as int,
                (before[pos as int].0, message_id as int),
            ));
        }
    } else {
        store.tags.insert(pos, entry);
        proof {
            lemma_insert(before, pos as int, tag@, message_id as int);
            assert(tag_views(store.tags@) =~= before.insert(
                pos as int,
                (tag@, message_id as int),
            ));
            assert forall|i: int| 0 <= i < store.tags@.len() implies 1 <= (
            #[trigger] store.tags@[i]).message_id <= store.messages@.len() by {
                if i < pos {
                    assert(store.tags@[i] == old(store).tags@[i]);
                } else if i > pos {
                    assert(store.tags@[i] == old(store).tags@[i - 1]);
                }
            }
        }
    }
    Ok(())
}

/// Deletes the tag `tag` and returns the message it pointed to.
pub fn delete_chat_tag(store: &mut MessageStore, tag: &str) -> (r: Option<i64>)
    requires
        well_formed(old(store)@),
    ensures
        well_formed(final(store)@),
        final(store)@.messages == old(store)@.messages,
        final(store)@.profile == old(store)@.profile,
        final(store)@.stage == old(store)@.stage,
        match r {
            Some(id) => tagged(old(store)@.tags, tag@) == Some(id as int),
            None => tagged(old(store)@.tags, tag@) is None && final(store)@ == old(store)@,
        },
        forall|name: Seq<char>| #[trigger]
            tagged(final(store)@.tags, name) == if name == tag@ {
                None
            } else {
                tagged(old(store)@.tags, name)
            },
{
    let (pos, found) = find_tag(&store.tags, tag);
    if !found {
        return None;
    }
    let ghost before = tag_views(store.tags@);
    let removed = store.tags.remove(pos);
    proof {
        lemma_remove(before, pos as int);
        assert(tag_views(store.tags@) =~= before.remove(pos as int));
        assert forall|i: int| 0 <= i < store.tags@.len() implies 1 <= (
        #[trigger] store.tags@[i]).message_id <= store.messages@.len() by {
            if i < pos {
                assert(store.tags@[i] == old(store).tags@[i]);
            } else {
                assert(store.tags@[i] == old(store).tags@[i + 1]);
            }
        }
    }
    Some(removed.message_id)
}

/// All tags, in the order of their names.
pub fn get_all_tags(store: &MessageStore) -> (r: Vec<Tag>)
    requires
        well_formed(store@),
    ensures
        tag_views(r@) == tag_views(store@.tags),
        sorted_keys(tag_views(r@)),
{
    let mut out: Vec<Tag> = Vec::new();
    let mut i: usize = 0;
    while i < store.tags.len()
        invariant
            i <= store.tags.len(),
            tag_views(out@) == tag_views(store.tags@).take(i as int),
        decreases store.tags.len() - i,
    {
        let ghost before = tag_views(out@);
        out.push(Tag { name: store.tags[i].name.clone(), message_id: store.tags[i].message_id });
        assert(tag_views(out@) =~= before.push(tag_views(store.tags@)[i as int]));
        assert(tag_views(store.tags@).take(i + 1) =~= before.push(
            tag_views(store.tags@)[i as int],
        ));
        i = i + 1;
    }
    assert(tag_views(store.tags@).take(store.tags.len() as int) == tag_views(store.tags@));
    out
}

/// The tag of the chat that is continued by default.
pub fn get_active_chat_tag(store: &MessageStore) -> (r: Option<String>)
    ensures
        option_view(r) == option_view(store@.profile.active_chat_tag),
{
    match &store.profile.active_chat_tag {
        Some(t) => Some(t.clone()),
        None => None,
    }
}

/// Makes `tag` the tag of the chat that is continued by default.
pub fn set_active_chat_tag(store: &mut MessageStore, tag: &str)
    ensures
        well_formed(old(store)@) ==> well_formed(final(store)@),
        final(store)@.messages == old(store)@.messages,
        final(store)@.tags == old(store)@.tags,
        final(store)@.stage == old(store)@.stage,
        final(store)@.profile.name == old(store)@.profile.name,
        final(store)@.profile.project_root == old(store)@.profile.project_root,
        option_view(final(store)@.profile.active_chat_tag) == Some(tag@),
{
    store.profile.active_chat_tag = Some(tag.to_owned());
}

/// The profile named `name`.
pub fn get_profile_by_name(store: &MessageStore, name: &str) -> (r: Result<Profile, StoreError>)
    ensures
        match r {
            Ok(p) => name@ == store@.profile.name@ && p.name@ == store@.profile.name@
                && option_view(p.active_chat_tag) == option_view(store@.profile.active_chat_tag)
                && option_view(p.project_root) == option_view(store@.profile.project_root),
            Err(e) => name@ != store@.profile.name@ && e == StoreError::ProfileNotFound,
        },
{
    if !same_chars(&chars_of(name), &chars_of(store.profile.name.as_str())) {
        return Err(StoreError::ProfileNotFound);
    }
    Ok(
        Profile {
            name: store.profile.name.clone(),
            active_chat_tag: match &store.profile.active_chat_tag {
                Some(t) => Some(t.clone()),
                None => None,
            },
            project_root: match &store.profile.project_root {
                Some(t) => Some(t.clone()),
                None => None,
            },
        },
    )
}

/// Sets the project root of the profile named `name`; a name that no
/// profile has changes nothing.
pub fn set_project_root(store: &mut MessageStore, name: &str, path: &str)
    ensures
        well_formed(old(store)@) ==> well_formed(final(store)@),
        final(store)@.messages == old(store)@.messages,
        final(store)@.tags == old(store)@.tags,
        final(store)@.stage == old(store)@.stage,
        final(store)@.profile.name == old(store)@.profile.name,
        final(store)@.profile.active_chat_tag == old(store)@.profile.active_chat_tag,
        option_view(final(store)@.profile.project_root) == if name@ == old(store)@.profile.name@ {
            Some(path@)
        } else {
            option_view(old(store)@.profile.project_root)
        },
{
    if same_chars(&chars_of(name), &chars_of(store.profile.name.as_str())) {
        store.profile.project_root = Some(path.to_owned());
    }
}

/// The context stage named `name`.
pub fn get_context_stage<'a>(store: &'a MessageStore, name: &str) -> (r: Result<
    &'a ContextStage,
    StoreError,
>)
    ensures
        match r {
            Ok(stage) => name@ == store@.stage.name@ && *stage == store@.stage,
            Err(e) => name@ != store@.stage.name@ && e == StoreError::StageNotFound,
        },
{
    if same_chars(&chars_of(name), &chars_of(store.stage.name.as_str())) {
        Ok(&store.stage)
    } else {
        Err(StoreError::StageNotFound)
    }
}

/// Replaces the three lists of the stored stage that has the name of
/// `stage` by those of `stage`; a name that no stage has changes nothing.
pub fn update_context_stage(store: &mut MessageStore, stage: &ContextStage)
    ensures
        well_formed(old(store)@) ==> well_formed(final(store)@),
        final(store)@.messages == old(store)@.messages,
        final(store)@.tags == old(store)@.tags,
        final(store)@.profile == old(store)@.profile,
        final(store)@.stage@ == if stage.name@ == old(store)@.stage.name@ {
            stage@
        } else {
            old(store)@.stage@
        },
{
    if same_chars(&chars_of(stage.name.as_str()), &chars_of(store.stage.name.as_str())) {
        store.stage.read_write_files = copy_texts(&stage.read_write_files);
        store.stage.read_only_files = copy_texts(&stage.read_only_files);
        store.stage.dropped_files = copy_texts(&stage.dropped_files);
    }
}

/// Stages `file_path` in the stage named `name`, as read-only or as
/// read-write.
pub fn add_file_to_stage(
    store: &mut MessageStore,
    name: &str,
    file_path: &str,
    read_only: bool,
) -> (r: Result<(), StoreError>)
    ensures
        well_formed(old(store)@) ==> well_formed(final(store)@),
        final(store)@.messages == old(store)@.messages,
        final(store)@.tags == old(store)@.tags,
        final(store)@.profile == old(store)@.profile,
        r is Ok <==> name@ == old(store)@.stage.name@,
        r is Ok ==> final(store)@.stage@ == stage_added(
            old(store)@.stage@,
            file_path@,
            read_only,
        ),
        r is Err ==> r == Err::<(), StoreError>(StoreError::StageNotFound) && final(store)@.stage
            == old(store)@.stage,
{
    if !same_chars(&chars_of(name), &chars_of(store.stage.name.as_str())) {
        return Err(StoreError::StageNotFound);
    }
    store.stage.add_file(file_path, read_only);
    Ok(())
}

/// Drops `file_path` in the stage named `name`, so that it is not
/// inherited.
pub fn remove_file_from_stage(store: &mut MessageStore, name: &str, file_path: &str) -> (r:
    Result<(), StoreError>)
    ensures
        well_formed(old(store)@) ==> well_formed(final(store)@),
        final(store)@.messages == old(store)@.messages,
        final(store)@.tags == old(store)@.tags,
        final(store)@.profile == old(store)@.profile,
        r is Ok <==> name@ == old(store)@.stage.name@,
        r is Ok ==> final(store)@.stage@ == stage_removed(old(store)@.stage@, file_path@),
        r is Err ==> r == Err::<(), StoreError>(StoreError::StageNotFound) && final(store)@.stage
            == old(store)@.stage,
{
    if !same_chars(&chars_of(name), &chars_of(store.stage.name.as_str())) {
        return Err(StoreError::StageNotFound);
    }
    store.stage.remove_file(file_path);
    Ok(())
}

/// Empties the stage named `name`; a name that no stage has changes
/// nothing.
pub fn clear_context_stage(store: &mut MessageStore, name: &str)
    ensures
        well_formed(old(store)@) ==> well_formed(final(store)@),
        final(store)@.messages == old(store)@.messages,
        final(store)@.tags == old(store)@.tags,
        final(store)@.profile == old(store)@.profile,
        final(store)@.stage@ == if name@ == old(store)@.stage.name@ {
            stage_cleared(old(store)@.stage@)
        } else {
            old(store)@.stage@
        },
{
    if same_chars(&chars_of(name), &chars_of(store.stage.name.as_str())) {
        store.stage.clear();
    }
}

/// The error of `serde_json::from_str`, as a value that is only passed on.
#[verifier::external_type_specification]
#[verifier::external_body]
pub struct ExJsonError(serde_json::Error);

/// What `serde_json::from_str` makes of `json` when a list of strings is
/// asked for: the strings, or nothing where it returns an error.
pub uninterp spec fn json_string_list(json: Seq<char>) -> Option<Seq<Seq<char>>>;

/// Reads `json` as a list of strings with `serde_json::from_str`. The
/// contract only names the result.
#[verifier::external_body]
fn parse_string_list(json: &str) -> (r: Result<Vec<String>, serde_json::Error>)
    ensures
        match r {
            Ok(list) => json_string_list(json@) == Some(texts(list@)),
            Err(_) => json_string_list(json@) is None,
        },
{
    serde_json::from_str::<Vec<String>>(json)
}

/// A stage with the given name and lists; a list that is missing is empty.
pub open spec fn stage_of_lists(
    name: Seq<char>,
    read_write: Option<Seq<Seq<char>>>,
    read_only: Option<Seq<Seq<char>>>,
    dropped: Option<Seq<Seq<char>>>,
) -> StageView {
    StageView {
        name,
        read_write_files: match read_write {
            Some(l) => l,
            None => Seq::empty(),
        },
        read_only_files: match read_only {
            Some(l) => l,
            None => Seq::empty(),
        },
        dropped_files: match dropped {
            Some(l) => l,
            None => Seq::empty(),
        },
    }
}

/// What an optional list of strings holds.
pub open spec fn option_texts(o: Option<Vec<String>>) -> Option<Seq<Seq<char>>> {
    match o {
        Some(l) => Some(texts(l@)),
        None => None,
    }
}

/// The stage with the given name and lists; a list that could not be read
/// counts as empty.
pub fn stage_from_lists(
    name: &str,
    read_write: Option<Vec<String>>,
    read_only: Option<Vec<String>>,
    dropped: Option<Vec<String>>,
) -> (r: ContextStage)
    ensures
        r@ == stage_of_lists(
            name@,
            option_texts(read_write),
            option_texts(read_only),
            option_texts(dropped),
        ),
{
    let r = ContextStage {
        name: name.to_owned(),
        read_write_files: match read_write {
            Some(l) => l,
            None => Vec::new(),
        },
        read_only_files: match read_only {
            Some(l) => l,
            None => Vec::new(),
        },
        dropped_files: match dropped {
            Some(l) => l,
            None => Vec::new(),
        },
    };
    assert(read_write is None ==> r@.read_write_files =~= Seq::empty());
    assert(read_only is None ==> r@.read_only_files =~= Seq::empty());
    assert(dropped is None ==> r@.dropped_files =~= Seq::empty());
    r
}

/// Reads a stage from the two columns of the legacy encoding, each a JSON
/// list of paths: nothing is dropped, and a column that cannot be read
/// counts as empty.
pub fn decode_legacy_stage(name: &str, read_write_json: &str, read_only_json: &str) -> (r:
    ContextStage)
    ensures
        r@ == stage_of_lists(
            name@,
            json_string_list(read_write_json@),
            json_string_list(read_only_json@),
            None,
        ),
{
    let read_write = match parse_string_list(read_write_json) {
        Ok(l) => Some(l),
        Err(_) => None,
    };
    let read_only = match parse_string_list(read_only_json) {
        Ok(l) => Some(l),
        Err(_) => None,
    };
    stage_from_lists(name, read_write, read_only, None)
}

/// Whether message `a` comes before message `b` in the order of creation:
/// by time, and by id where the times are the same.
pub open spec fn older(messages: Seq<StoredMessage>, a: i64, b: i64) -> bool {
    let at = messages[a - 1].created_at@;
    let bt = messages[b - 1].created_at@;
    lex_less(at, bt) || (at == bt && a < b)
}

/// How many of the first ids of `sorted` are older than `id`, up to the
/// first that is not.
pub open spec fn place(messages: Seq<StoredMessage>, sorted: Seq<i64>, id: i64) -> int
    decreases sorted.len(),
{
    if sorted.len() == 0 || !older(messages, sorted[0], id) {
        0
    } else {
        1 + place(messages, sorted.drop_first(), id)
    }
}

/// The ids of `ids` in the order of creation, oldest first.
pub open spec fn by_age(messages: Seq<StoredMessage>, ids: Seq<i64>) -> Seq<i64>
    decreases ids.len(),
{
    if ids.len() == 0 {
        Seq::empty()
    } else {
        let rest = by_age(messages, ids.drop_last());
        rest.insert(place(messages, rest, ids.last()), ids.last())
    }
}

/// The message `id` and its ancestors, from `id` up to the root.
pub open spec fn chain_up(messages: Seq<StoredMessage>, id: i64) -> Seq<i64>
    decreases id,
{
    if !(1 <= id <= messages.len()) {
        Seq::empty()
    } else {
        let p = parent_of(messages[id - 1]);
        if 1 <= p < id {
            seq![id] + chain_up(messages, p as i64)
        } else {
            seq![id]
        }
    }
}

/// Whether some message has `id` as its parent.
pub open spec fn has_child(messages: Seq<StoredMessage>, id: i64) -> bool {
    exists|j: int| 0 <= j < messages.len() && parent_of(#[trigger] messages[j]) == id
}

/// Whether `id` is a message without children.
pub open spec fn is_leaf(messages: Seq<StoredMessage>, id: i64) -> bool {
    1 <= id <= messages.len() && !has_child(messages, id)
}

/// The leaves among the first `n` messages, in the order of their ids.
pub open spec fn leaf_ids(messages: Seq<StoredMessage>, n: int) -> Seq<i64>
    decreases n,
{
    if n <= 0 {
        Seq::empty()
    } else if is_leaf(messages, n as i64) {
        leaf_ids(messages, n - 1).push(n as i64)
    } else {
        leaf_ids(messages, n - 1)
    }
}

/// The ids of the conversation that ends at `leaf_id`, oldest first.
pub open spec fn history_ids(messages: Seq<StoredMessage>, leaf_id: i64) -> Seq<i64> {
    by_age(messages, chain_up(messages, leaf_id))
}

/// The ids of the leaves, newest first.
pub open spec fn leaves_newest_first(messages: Seq<StoredMessage>) -> Seq<i64> {
    by_age(messages, leaf_ids(messages, messages.len() as int)).reverse()
}

/// Whether every id of `ids` is the id of a message.
pub open spec fn all_known(messages: Seq<StoredMessage>, ids: Seq<i64>) -> bool {
    forall|k: int| 0 <= k < ids.len() ==> 1 <= #[trigger] ids[k] <= messages.len()
}

proof fn lemma_place(messages: Seq<StoredMessage>, sorted: Seq<i64>, id: i64, m: int)
    requires
        0 <= m <= sorted.len(),
        forall|k: int| 0 <= k < m ==> older(messages, #[trigger] sorted[k], id),
        m == sorted.len() || !older(messages, sorted[m], id),
    ensures
        place(messages, sorted, id) == m,
    decreases m,
{
    if m > 0 {
        let rest = sorted.drop_first();
        assert forall|k: int| 0 <= k < m - 1 implies older(messages, #[trigger] rest[k], id) by {
            assert(rest[k] == sorted[k + 1]);
        }
        lemma_place(messages, rest, id, m - 1);
    }
}

fn is_older(store: &MessageStore, a: i64, b: i64) -> (r: bool)
    requires
        1 <= a <= store@.messages.len(),
        1 <= b <= store@.messages.len(),
    ensures
        r == older(store@.messages, a, b),
{
    let at = chars_of(store.at(a).created_at.as_str());
    let bt = chars_of(store.at(b).created_at.as_str());
    if precedes(&at, &bt) {
        true
    } else {
        same_chars(&at, &bt) && a < b
    }
}

fn insert_by_age(store: &MessageStore, sorted: &mut Vec<i64>, id: i64)
    requires
        1 <= id <= store@.messages.len(),
        all_known(store@.messages, old(sorted)@),
    ensures
        all_known(store@.messages, final(sorted)@),
        final(sorted)@ == old(sorted)@.insert(
            place(store@.messages, old(sorted)@, id),
            id,
        ),
{
    let mut pos: usize = 0;
    while pos < sorted.len() && is_older(store, sorted[pos], id)
        invariant
            pos <= sorted.len(),
            sorted@ == old(sorted)@,
            1 <= id <= store@.messages.len(),
            all_known(store@.messages, sorted@),
            forall|k: int| 0 <= k < pos ==> older(store@.messages, #[trigger] sorted@[k], id),
        decreases sorted.len() - pos,
    {
        pos = pos + 1;
    }
    proof {
        lemma_place(store@.messages, sorted@, id, pos as int);
    }
    sorted.insert(pos, id);
    assert forall|k: int| 0 <= k < sorted@.len() implies 1 <= #[trigger] sorted@[k]
        <= store@.messages.len() by {
        if k < pos {
            assert(sorted@[k] == old(sorted)@[k]);
        } else if k > pos {
            assert(sorted@[k] == old(sorted)@[k - 1]);
        }
    }
}

fn bears_child(store: &MessageStore, id: i64) -> (r: bool)
    ensures
        r == has_child(store@.messages, id),
{
    let mut j: usize = 0;
    while j < store.messages.len()
        invariant
            j <= store.messages.len(),
            forall|k: int| 0 <= k < j ==> parent_of(#[trigger] store@.messages[k]) != id,
        decreases store.messages.len() - j,
    {
        match store.messages[j].parent_id {
            Some(p) => {
                if p == id {
                    assert(parent_of(store@.messages[j as int]) == id);
                    return true;
                }
            },
            None => {
                if id == 0 {
                    assert(parent_of(store@.messages[j as int]) == id);
                    return true;
                }
            },
        }
        j = j + 1;
    }
    false
}

fn first_tag_of(store: &MessageStore, id: i64) -> (r: Option<String>)
    ensures
        option_view(r) == tag_of(store@.tags, id as int),
{
    let mut i: usize = 0;
    assert(store.tags@.skip(0) == store.tags@);
    while i < store.tags.len()
        invariant
            i <= store.tags.len(),
            tag_of(store.tags@, id as int) == tag_of(store.tags@.skip(i as int), id as int),
        decreases store.tags.len() - i,
    {
        let ghost rest = store.tags@.skip(i as int);
        assert(rest[0] == store.tags@[i as int]);
        assert(rest.drop_first() == store.tags@.skip(i + 1));
        if store.tags[i].message_id == id {
            return Some(store.tags[i].name.clone());
        }
        i = i + 1;
    }
    None
}

/// Whether the rows of `history` are the messages `order`, one by one.
pub open spec fn shows(
    history: Seq<HistoryMessage>,
    messages: Seq<StoredMessage>,
    order: Seq<i64>,
) -> bool {
    &&& history.len() == order.len()
    &&& forall|k: int|
        0 <= k < order.len() ==> {
            &&& (#[trigger] history[k]).role@ == messages[order[k] - 1].role@
            &&& history[k].content@ == messages[order[k] - 1].content@
            &&& history[k].created_at@ == messages[order[k] - 1].created_at@
        }
}

/// Whether the rows of `leaves` are the messages `order`, one by one, each
/// with the first tag that points to it.
pub open spec fn lists_leaves(leaves: Seq<Leaf>, store: StoreView, order: Seq<i64>) -> bool {
    &&& leaves.len() == order.len()
    &&& forall|k: int|
        0 <= k < order.len() ==> {
            &&& (#[trigger] leaves[k]).id == order[k]
            &&& leaves[k].content@ == store.messages[order[k] - 1].content@
            &&& leaves[k].created_at@ == store.messages[order[k] - 1].created_at@
            &&& option_view(leaves[k].tag) == tag_of(store.tags, order[k] as int)
        }
}

/// The conversation that ends at `leaf_id`: the message and its ancestors,
/// in the order of their creation, oldest first.
pub fn get_conversation_history(store: &MessageStore, leaf_id: i64) -> (r: Result<
    Vec<HistoryMessage>,
    StoreError,
>)
    requires
        well_formed(store@),
    ensures
        match r {
            Ok(history) => 1 <= leaf_id <= store@.messages.len() && shows(
                history@,
                store@.messages,
                history_ids(store@.messages, leaf_id),
            ),
            Err(e) => !(1 <= leaf_id <= store@.messages.len()) && e
                == (StoreError::MessageNotFound { id: leaf_id }),
        },
{
    if leaf_id < 1 || (leaf_id as u64) > (store.messages.len() as u64) {
        return Err(StoreError::MessageNotFound { id: leaf_id });
    }
    let ghost messages = store@.messages;
    let ghost whole = chain_up(messages, leaf_id);
    let mut sorted: Vec<i64> = Vec::new();
    let mut cur: i64 = leaf_id;
    let ghost mut walked: Seq<i64> = Seq::empty();
    assert(walked + chain_up(messages, cur) == whole);
    loop
        invariant_except_break
            walked + chain_up(messages, cur) == whole,
        invariant
            well_formed(store@),
            messages == store@.messages,
            1 <= cur <= messages.len(),
            sorted@ == by_age(messages, walked),
            all_known(messages, sorted@),
        ensures
            walked == whole,
        decreases cur,
    {
        let ghost before = walked;
        insert_by_age(store, &mut sorted, cur);
        proof {
            walked = walked.push(cur);
            assert(walked.drop_last() == before);
        }
        match store.at(cur).parent_id {
            Some(p) => {
                assert(parent_of(messages[cur - 1]) == p);
                if p < 1 {
                    assert(chain_up(messages, cur) == seq![cur]);
                    assert(walked == whole);
                    break;
                }
                assert(chain_up(messages, cur) == seq![cur] + chain_up(messages, p));
                assert(walked + chain_up(messages, p) == whole);
                cur = p;
            },
            None => {
                assert(chain_up(messages, cur) == seq![cur]);
                assert(walked == whole);
                break;
            },
        }
    }
    let mut out: Vec<HistoryMessage> = Vec::new();
    let mut k: usize = 0;
    while k < sorted.len()
        invariant
            k <= sorted.len(),
            messages == store@.messages,
            all_known(messages, sorted@),
            shows(out@, messages, sorted@.take(k as int)),
        decreases sorted.len() - k,
    {
        let m = store.at(sorted[k]);
        let ghost before = out@;
        out.push(
            HistoryMessage {
                role: m.role.clone(),
                content: m.content.clone(),
                created_at: m.created_at.clone(),
            },
        );
        proof {
            let upto = sorted@.take(k + 1);
            assert forall|j: int| 0 <= j < upto.len() implies {
                &&& (#[trigger] out@[j]).role@ == messages[upto[j] - 1].role@
                &&& out@[j].content@ == messages[upto[j] - 1].content@
                &&& out@[j].created_at@ == messages[upto[j] - 1].created_at@
            } by {
                if j < k {
                    assert(out@[j] == before[j]);
                    assert(upto[j] == sorted@.take(k as int)[j]);
                }
            }
        }
        k = k + 1;
    }
    assert(sorted@.take(sorted.len() as int) == sorted@);
    Ok(out)
}

/// The messages without children, newest first, each with the first tag
/// that points to it.
pub fn get_leaf_messages(store: &MessageStore) -> (r: Vec<Leaf>)
    requires
        well_formed(store@),
    ensures
        lists_leaves(r@, store@, leaves_newest_first(store@.messages)),
{
    let ghost messages = store@.messages;
    let mut sorted: Vec<i64> = Vec::new();
    let mut i: usize = 0;
    while i < store.messages.len()
        invariant
            i <= store.messages.len(),
            well_formed(store@),
            messages == store@.messages,
            sorted@ == by_age(messages, leaf_ids(messages, i as int)),
            all_known(messages, sorted@),
        decreases store.messages.len() - i,
    {
        let id: i64 = ((i as u64) + 1) as i64;
        if !bears_child(store, id) {
            insert_by_age(store, &mut sorted, id);
            assert(leaf_ids(messages, i + 1).drop_last() == leaf_ids(messages, i as int));
        }
        i = i + 1;
    }
    let ghost order = sorted@.reverse();
    let mut out: Vec<Leaf> = Vec::new();
    let mut k: usize = 0;
    let n = sorted.len();
    while k < n
        invariant
            k <= n,
            n == sorted.len(),
            messages == store@.messages,
            order == sorted@.reverse(),
            all_known(messages, sorted@),
            lists_leaves(out@, store@, order.take(k as int)),
        decreases n - k,
    {
        let id = sorted[n - 1 - k];
        assert(order[k as int] == id);
        let m = store.at(id);
        let ghost before = out@;
        out.push(
            Leaf {
                id,
                created_at: m.created_at.clone(),
                content: m.content.clone(),
                tag: first_tag_of(store, id),
            },
        );
        proof {
            let upto = order.take(k + 1);
            assert forall|j: int| 0 <= j < upto.len() implies {
                &&& (#[trigger] out@[j]).id == upto[j]
                &&& out@[j].content@ == store@.messages[upto[j] - 1].content@
                &&& out@[j].created_at@ == store@.messages[upto[j] - 1].created_at@
                &&& option_view(out@[j].tag) == tag_of(store@.tags, upto[j] as int)
            } by {
                if j < k {
                    assert(out@[j] == before[j]);
                    assert(upto[j] == order.take(k as int)[j]);
                }
            }
        }
        k = k + 1;
    }
    assert(order.take(n as int) == order);
    out
}

} // verus!
