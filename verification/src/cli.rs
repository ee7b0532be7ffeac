//! The commands of the program as plain values, and what follows from their
//! options alone.

use crate::text::{chars_of, option_view, trim, trimmed};
use vstd::prelude::*;

verus! {

/// The command line.
#[derive(Debug, Clone, PartialEq, Eq)]
pub struct Cli {
    pub command: Option<Command>,
}

/// The options of the `stage` command.
#[derive(Debug, Clone, PartialEq, Eq)]
pub struct StageArgs {
    /// The file to stage or to drop; without it the contexts are shown.
    pub file_path: Option<String>,
    /// Stage the file as read-only.
    pub read_only: bool,
    /// Drop the file from the context.
    pub drop: bool,
}

/// A command with its options.
#[derive(Debug, Clone, PartialEq, Eq)]
pub enum Command {
    /// List all chats.
    List,
    /// Manage chat tags.
    Tag(TagSubcommand),
    /// Stage files for the context of the next message.
    Stage(StageArgs),
    /// Show or change the profile.
    Profile { active_chat: Option<String>, set_project_root: Option<String> },
    /// Show the history of a chat.
    History { target: Option<String>, tag: bool, message: bool },
    /// Send a prompt to the model.
    Send {
        prompt: String,
        parent: Option<i64>,
        chat: Option<String>,
        new: bool,
        stream: bool,
        no_stream: bool,
        ignore_inherited_stage: bool,
        confirm: bool,
    },
}

/// A command on tags.
#[derive(Debug, Clone, PartialEq, Eq)]
pub enum TagSubcommand {
    /// Point a tag to a message.
    Assign { tag: String, message: i64 },
    /// Delete a tag.
    Delete { tag: String },
    /// List all tags.
    List,
}

/// What the `stage` command is asked to do.
#[derive(Debug, PartialEq, Eq)]
pub enum StageAction {
    /// Show the inherited, the prepared and the final context.
    Show,
    /// Drop the file, so that it is not inherited.
    Drop { path: String },
    /// Stage the file.
    Add { path: String, read_only: bool },
}

/// What a `StageAction` holds, as character sequences.
pub ghost enum StageActionView {
    Show,
    Drop { path: Seq<char> },
    Add { path: Seq<char>, read_only: bool },
}

impl View for StageAction {
    type V = StageActionView;

    open spec fn view(&self) -> StageActionView {
        match self {
            StageAction::Show => StageActionView::Show,
            StageAction::Drop { path } => StageActionView::Drop { path: path@ },
            StageAction::Add { path, read_only } => StageActionView::Add {
                path: path@,
                read_only: *read_only,
            },
        }
    }
}

impl StageArgs {
    /// What is asked for: without a file the contexts are shown; with one,
    /// dropping goes before staging.
    pub fn action(&self) -> (r: StageAction)
        ensures
            r@ == match self.file_path {
                None => StageActionView::Show,
                Some(p) => if self.drop {
                    StageActionView::Drop { path: p@ }
                } else {
                    StageActionView::Add { path: p@, read_only: self.read_only }
                },
            },
    {
        match &self.file_path {
            None => StageAction::Show,
            Some(p) => {
                if self.drop {
                    StageAction::Drop { path: p.clone() }
                } else {
                    StageAction::Add { path: p.clone(), read_only: self.read_only }
                }
            },
        }
    }
}

/// The chat or message whose history is asked for.
#[derive(Debug, PartialEq, Eq)]
pub enum HistoryTarget {
    /// The chat of the active tag.
    ActiveChat,
    /// The chat of the tag `name`.
    Tag { name: String },
    /// The message whose id is written in `id`.
    Message { id: String },
}

/// What a `HistoryTarget` holds, as character sequences.
pub ghost enum HistoryTargetView {
    ActiveChat,
    Tag { name: Seq<char> },
    Message { id: Seq<char> },
}

impl View for HistoryTarget {
    type V = HistoryTargetView;

    open spec fn view(&self) -> HistoryTargetView {
        match self {
            HistoryTarget::ActiveChat => HistoryTargetView::ActiveChat,
            HistoryTarget::Tag { name } => HistoryTargetView::Tag { name: name@ },
            HistoryTarget::Message { id } => HistoryTargetView::Message { id: id@ },
        }
    }
}

/// The options of a command do not go together.
#[derive(Debug, Clone, Copy, PartialEq, Eq, Structural)]
pub struct InvalidArguments {}

/// The target that the options of the `history` command name, if they go
/// together.
pub open spec fn history_target_of(target: Option<Seq<char>>, tag: bool, message: bool) -> Option<
    HistoryTargetView,
> {
    match target {
        None => if !tag && !message {
            Some(HistoryTargetView::ActiveChat)
        } else {
            None
        },
        Some(value) => if !message {
            Some(HistoryTargetView::Tag { name: value })
        } else if !tag {
            Some(HistoryTargetView::Message { id: value })
        } else {
            None
        },
    }
}

/// Reads the options of the `history` command: no target means the active
/// chat, a target is a tag unless it is marked as a message id, and a target
/// cannot be marked as both.
pub fn history_target(target: &Option<String>, tag: bool, message: bool) -> (r: Result<
    HistoryTarget,
    InvalidArguments,
>)
    ensures
        match r {
            Ok(t) => history_target_of(option_view(*target), tag, message) == Some(t@),
            Err(_) => history_target_of(option_view(*target), tag, message) is None,
        },
{
    match target {
        None => {
            if !tag && !message {
                Ok(HistoryTarget::ActiveChat)
            } else {
                Err(InvalidArguments {  })
            }
        },
        Some(value) => {
            if !message {
                Ok(HistoryTarget::Tag { name: value.clone() })
            } else if !tag {
                Ok(HistoryTarget::Message { id: value.clone() })
            } else {
                Err(InvalidArguments {  })
            }
        },
    }
}

/// Where a new message is attached.
#[derive(Debug, PartialEq, Eq)]
pub enum ParentSource {
    /// Nowhere: it starts a new conversation, and no tag moves.
    Root,
    /// Below the message `id`, and no tag moves.
    Message { id: i64 },
    /// Below the message of the tag `tag`, which moves on.
    Chat { tag: String },
    /// Below the message of the active tag, which moves on.
    ActiveChat,
}

/// What a `ParentSource` holds, as character sequences.
pub ghost enum ParentSourceView {
    Root,
    Message { id: i64 },
    Chat { tag: Seq<char> },
    ActiveChat,
}

impl View for ParentSource {
    type V = ParentSourceView;

    open spec fn view(&self) -> ParentSourceView {
        match self {
            ParentSource::Root => ParentSourceView::Root,
            ParentSource::Message { id } => ParentSourceView::Message { id: *id },
            ParentSource::Chat { tag } => ParentSourceView::Chat { tag: tag@ },
            ParentSource::ActiveChat => ParentSourceView::ActiveChat,
        }
    }
}

/// Reads the options of the `send` command that say where the message is
/// attached: `new` goes before `parent`, and `parent` before `chat`.
pub fn parent_source(new: bool, parent: Option<i64>, chat: &Option<String>) -> (r: ParentSource)
    ensures
        r@ == if new {
            ParentSourceView::Root
        } else {
            match (parent, *chat) {
                (Some(id), _) => ParentSourceView::Message { id },
                (None, Some(tag)) => ParentSourceView::Chat { tag: tag@ },
                (None, None) => ParentSourceView::ActiveChat,
            }
        },
{
    if new {
        ParentSource::Root
    } else {
        match parent {
            Some(id) => ParentSource::Message { id },
            None => match chat {
                Some(tag) => ParentSource::Chat { tag: tag.clone() },
                None => ParentSource::ActiveChat,
            },
        }
    }
}

/// Whether the response is streamed: the two options go before the
/// configured value, and without any of them it is not.
pub fn use_stream(stream: bool, no_stream: bool, configured: Option<bool>) -> (r: bool)
    ensures
        r == if stream {
            true
        } else if no_stream {
            false
        } else {
            match configured {
                Some(b) => b,
                None => false,
            }
        },
{
    if stream {
        true
    } else if no_stream {
        false
    } else {
        match configured {
            Some(b) => b,
            None => false,
        }
    }
}

/// Whether an answer to the question before a send agrees: it does where,
/// trimmed, it is empty or the letter y in either case.
pub open spec fn agrees(answer: Seq<char>) -> bool {
    let t = trimmed(answer);
    t.len() == 0 || (t.len() == 1 && (t[0] == 'y' || t[0] == 'Y'))
}

/// Whether the answer to the question before a send agrees.
pub fn confirms(answer: &str) -> (r: bool)
    ensures
        r == agrees(answer@),
{
    let t = trim(&chars_of(answer));
    t.len() == 0 || (t.len() == 1 && (t[0] == 'y' || t[0] == 'Y'))
}

} // verus!
