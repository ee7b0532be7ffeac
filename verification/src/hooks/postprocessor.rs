//! The patch engine: reads the edits that a response proposes, and plans how
//! they are written to the working tree and committed.

use crate::text::{
    chars_of, count_from, count_matches, decimal, decimal_of, join_lines, join_range,
    lemma_join_lines_of,
    lemma_trimmed_drop_last, lines_of, no_crlf, option_view, replace_first,
    replace_once, same_chars, slice, split_lines, string_of, trim, trimmed, views,
};
use crate::paths::{lies_within, within};
use vstd::prelude::*;

verus! {

/// One exact-match edit of one file.
#[derive(Debug, PartialEq, Eq)]
pub struct FileChange {
    pub path: String,
    pub search_content: String,
    pub replace_content: String,
}

/// What a `FileChange` holds, as character sequences.
pub ghost struct FileChangeView {
    pub path: Seq<char>,
    pub search_content: Seq<char>,
    pub replace_content: Seq<char>,
}

impl View for FileChange {
    type V = FileChangeView;

    open spec fn view(&self) -> FileChangeView {
        FileChangeView {
            path: self.path@,
            search_content: self.search_content@,
            replace_content: self.replace_content@,
        }
    }
}

/// The views of a list of changes.
pub open spec fn change_views(v: Seq<FileChange>) -> Seq<FileChangeView> {
    Seq::new(v.len(), |i: int| v[i]@)
}

/// The line that opens the search section of a block.
pub open spec fn search_marker() -> Seq<char> {
    "<<<<<<< SEARCH"@
}

/// The line that parts the search section from the replace section.
pub open spec fn divider() -> Seq<char> {
    "======="@
}

/// The line that closes a block.
pub open spec fn replace_marker() -> Seq<char> {
    ">>>>>>> REPLACE"@
}

/// Whether a trimmed line can name a file: it is not empty, holds no space
/// and does not start with `#`.
pub open spec fn is_path(p: Seq<char>) -> bool {
    p.len() > 0 && p[0] != '#' && !p.contains(' ')
}

/// The first line at or after `from` that equals `what`, or the number of
/// lines where there is none.
pub open spec fn next_line(lines: Seq<Seq<char>>, what: Seq<char>, from: int) -> int
    decreases lines.len() - from,
{
    if from < 0 || from >= lines.len() {
        lines.len() as int
    } else if lines[from] == what {
        from
    } else {
        next_line(lines, what, from + 1)
    }
}

/// A closed block: the lines of its path, of its divider and of its closing
/// marker.
pub ghost struct Block {
    pub start: int,
    pub divider: int,
    pub end: int,
}

/// The block that starts at line `i`, if line `i` names a file, line `i + 1`
/// opens a search section, a divider follows and a closing marker follows
/// the divider.
pub open spec fn block_at(lines: Seq<Seq<char>>, i: int) -> Option<Block> {
    if 0 <= i && i + 1 < lines.len() && lines[i + 1] == search_marker() && is_path(
        trimmed(lines[i]),
    ) {
        let d = next_line(lines, divider(), i + 2);
        let e = next_line(lines, replace_marker(), d + 1);
        if d < lines.len() && e < lines.len() {
            Some(Block { start: i, divider: d, end: e })
        } else {
            None
        }
    } else {
        None
    }
}

/// The edit that a block stands for.
pub open spec fn change_of(lines: Seq<Seq<char>>, b: Block) -> FileChangeView {
    FileChangeView {
        path: trimmed(lines[b.start]),
        search_content: join_lines(lines.subrange(b.start + 2, b.divider)),
        replace_content: join_lines(lines.subrange(b.divider + 1, b.end)),
    }
}

/// The edits of the blocks found from line `i` on. After a closed block the
/// scan goes on behind its closing marker; a line that starts no closed
/// block is passed over.
pub open spec fn changes_from(lines: Seq<Seq<char>>, i: int) -> Seq<FileChangeView>
    decreases lines.len() - i,
{
    if i < 0 || i >= lines.len() {
        Seq::empty()
    } else {
        match block_at(lines, i) {
            Some(b) => if i < b.end < lines.len() {
                seq![change_of(lines, b)] + changes_from(lines, b.end + 1)
            } else {
                Seq::empty()
            },
            None => changes_from(lines, i + 1),
        }
    }
}

/// The lines from line `i` on that belong to no closed block, in order.
pub open spec fn loose_from(lines: Seq<Seq<char>>, i: int) -> Seq<Seq<char>>
    decreases lines.len() - i,
{
    if i < 0 || i >= lines.len() {
        Seq::empty()
    } else {
        match block_at(lines, i) {
            Some(b) => if i < b.end < lines.len() {
                loose_from(lines, b.end + 1)
            } else {
                Seq::empty()
            },
            None => seq![lines[i]] + loose_from(lines, i + 1),
        }
    }
}

/// The edits that a response proposes.
pub open spec fn changes_of(response: Seq<char>) -> Seq<FileChangeView> {
    changes_from(lines_of(response), 0)
}

/// The text of a response outside its closed blocks.
pub open spec fn loose_text(response: Seq<char>) -> Seq<char> {
    join_lines(loose_from(lines_of(response), 0))
}

fn looks_like_path(p: &Vec<char>) -> (r: bool)
    ensures
        r == is_path(p@),
{
    if p.len() == 0 || p[0] == '#' {
        return false;
    }
    let mut k: usize = 0;
    while k < p.len()
        invariant
            k <= p.len(),
            forall|j: int| 0 <= j < k ==> p@[j] != ' ',
        decreases p.len() - k,
    {
        if p[k] == ' ' {
            return false;
        }
        k = k + 1;
    }
    true
}

fn find_line(lines: &Vec<Vec<char>>, what: &Vec<char>, from: usize) -> (r: usize)
    ensures
        r == next_line(views(lines@), what@, from as int),
        from <= r || r == lines.len(),
        r <= lines.len(),
{
    let mut i: usize = from;
    while i < lines.len()
        invariant
            from <= i,
            next_line(views(lines@), what@, from as int) == next_line(
                views(lines@),
                what@,
                i as int,
            ),
        decreases lines.len() - i,
    {
        if same_chars(&lines[i], what) {
            return i;
        }
        i = i + 1;
    }
    lines.len()
}

fn find_block(lines: &Vec<Vec<char>>, i: usize) -> (r: Option<(usize, usize)>)
    requires
        i < lines.len(),
    ensures
        match r {
            Some((d, e)) => block_at(views(lines@), i as int) == Some(
                Block { start: i as int, divider: d as int, end: e as int },
            ) && i + 2 <= d < e < lines.len(),
            None => block_at(views(lines@), i as int) is None,
        },
{
    if lines.len() - i < 2 {
        return None;
    }
    let opener = chars_of("<<<<<<< SEARCH");
    if !same_chars(&lines[i + 1], &opener) {
        return None;
    }
    let path = trim(&lines[i]);
    if !looks_like_path(&path) {
        return None;
    }
    let mid = chars_of("=======");
    let d = find_line(lines, &mid, i + 2);
    if d >= lines.len() {
        return None;
    }
    let closer = chars_of(">>>>>>> REPLACE");
    let e = find_line(lines, &closer, d + 1);
    if e >= lines.len() {
        return None;
    }
    Some((d, e))
}

/// Reads the closed blocks of `lines`: the edits they stand for, and the
/// lines that belong to none of them.
pub fn scan_blocks(lines: &Vec<Vec<char>>) -> (r: (Vec<FileChange>, Vec<Vec<char>>))
    ensures
        change_views(r.0@) == changes_from(views(lines@), 0),
        views(r.1@) == loose_from(views(lines@), 0),
{
    let mut changes: Vec<FileChange> = Vec::new();
    let mut loose: Vec<Vec<char>> = Vec::new();
    let mut i: usize = 0;
    let ghost all = views(lines@);
    assert(change_views(changes@) + changes_from(all, 0) == changes_from(all, 0));
    assert(views(loose@) + loose_from(all, 0) == loose_from(all, 0));
    while i < lines.len()
        invariant
            i <= lines.len(),
            all == views(lines@),
            change_views(changes@) + changes_from(all, i as int) == changes_from(all, 0),
            views(loose@) + loose_from(all, i as int) == loose_from(all, 0),
        decreases lines.len() - i,
    {
        let ghost done = change_views(changes@);
        let ghost kept = views(loose@);
        match find_block(lines, i) {
            Some((d, e)) => {
                let change = FileChange {
                    path: string_of(&trim(&lines[i])),
                    search_content: string_of(&join_range(lines, i + 2, d)),
                    replace_content: string_of(&join_range(lines, d + 1, e)),
                };
                proof {
                    let b = Block { start: i as int, divider: d as int, end: e as int };
                    assert(change@ == change_of(all, b));
                    assert(changes_from(all, i as int) == seq![change@] + changes_from(
                        all,
                        e + 1,
                    ));
                    assert(loose_from(all, i as int) == loose_from(all, e + 1));
                }
                changes.push(change);
                assert(change_views(changes@) == done + seq![change@]);
                i = e + 1;
            },
            None => {
                let line = slice(&lines[i], 0, lines[i].len());
                proof {
                    assert(line@ == all[i as int]);
                    assert(loose_from(all, i as int) == seq![line@] + loose_from(all, i + 1));
                }
                loose.push(line);
                assert(views(loose@) == kept + seq![line@]);
                i = i + 1;
            },
        }
    }
    proof {
        assert(changes_from(all, i as int) == Seq::<FileChangeView>::empty());
        assert(loose_from(all, i as int) == Seq::<Seq<char>>::empty());
        assert(change_views(changes@) + Seq::<FileChangeView>::empty() == change_views(changes@));
        assert(views(loose@) + Seq::<Seq<char>>::empty() == views(loose@));
    }
    (changes, loose)
}

/// Why the edits of a response were not applied or committed.
#[derive(Debug, PartialEq, Eq)]
pub enum PatchError {
    /// The pattern for fenced code was not accepted.
    BadPattern,
    /// The search text does not occur in the file.
    NotFound { path: String },
    /// The search text occurs more than once in the file.
    Ambiguous { path: String, count: usize },
    /// The file lies outside the project root.
    Unauthorized { path: String, root: String },
    /// Adding the file to the index ended with a failure status.
    AddFailed { path: String },
    /// The commit ended with a failure status.
    CommitFailed,
    /// A step could not be carried out at all.
    Io,
    /// A report does not answer the step that was asked for.
    OutOfTurn,
}

/// What a `PatchError` holds, as character sequences.
pub ghost enum PatchErrorView {
    BadPattern,
    NotFound { path: Seq<char> },
    Ambiguous { path: Seq<char>, count: nat },
    Unauthorized { path: Seq<char>, root: Seq<char> },
    AddFailed { path: Seq<char> },
    CommitFailed,
    Io,
    OutOfTurn,
}

impl View for PatchError {
    type V = PatchErrorView;

    open spec fn view(&self) -> PatchErrorView {
        match self {
            PatchError::BadPattern => PatchErrorView::BadPattern,
            PatchError::NotFound { path } => PatchErrorView::NotFound { path: path@ },
            PatchError::Ambiguous { path, count } => PatchErrorView::Ambiguous {
                path: path@,
                count: *count as nat,
            },
            PatchError::Unauthorized { path, root } => PatchErrorView::Unauthorized {
                path: path@,
                root: root@,
            },
            PatchError::AddFailed { path } => PatchErrorView::AddFailed { path: path@ },
            PatchError::CommitFailed => PatchErrorView::CommitFailed,
            PatchError::Io => PatchErrorView::Io,
            PatchError::OutOfTurn => PatchErrorView::OutOfTurn,
        }
    }
}

/// What is said to the user of an error.
pub open spec fn message_of(error: PatchErrorView) -> Seq<char> {
    match error {
        PatchErrorView::BadPattern => "The pattern for fenced code is not valid."@,
        PatchErrorView::NotFound { path } => "SEARCH block not found in file "@ + path,
        PatchErrorView::Ambiguous { path, count } => "SEARCH block appears "@ + decimal_of(count)
            + " times in file "@ + path + ". Ambiguous which one to replace."@,
        PatchErrorView::Unauthorized { path, root } => "Attempted to modify file "@ + path
            + " which is outside the project root "@ + root + "."@,
        PatchErrorView::AddFailed { path } => "git add failed for "@ + path,
        PatchErrorView::CommitFailed => "git commit failed"@,
        PatchErrorView::Io => "A file or command could not be reached."@,
        PatchErrorView::OutOfTurn => "A report does not answer the step that was asked for."@,
    }
}

impl PatchError {
    /// What is said to the user of the error.
    pub fn message(&self) -> (r: String)
        ensures
            r@ == message_of(self@),
    {
        match self {
            PatchError::BadPattern => "The pattern for fenced code is not valid.".to_owned(),
            PatchError::NotFound { path } => {
                let mut r = "SEARCH block not found in file ".to_owned();
                r.append(path.as_str());
                r
            },
            PatchError::Ambiguous { path, count } => {
                let mut r = "SEARCH block appears ".to_owned();
                r.append(string_of(&decimal(*count)).as_str());
                r.append(" times in file ");
                r.append(path.as_str());
                r.append(". Ambiguous which one to replace.");
                r
            },
            PatchError::Unauthorized { path, root } => {
                let mut r = "Attempted to modify file ".to_owned();
                r.append(path.as_str());
                r.append(" which is outside the project root ");
                r.append(root.as_str());
                r.append(".");
                r
            },
            PatchError::AddFailed { path } => {
                let mut r = "git add failed for ".to_owned();
                r.append(path.as_str());
                r
            },
            PatchError::CommitFailed => "git commit failed".to_owned(),
            PatchError::Io => "A file or command could not be reached.".to_owned(),
            PatchError::OutOfTurn => "A report does not answer the step that was asked for.".to_owned(),
        }
    }
}

/// The pattern of a fenced code block: three backticks, an optional language
/// tag, and everything up to the next three backticks.
pub const FENCE_PATTERN: &'static str = r"(?s)```[a-zA-Z]*\n?.*?\n?```";

/// Whether `regex::Regex::new` accepts `pattern`.
pub uninterp spec fn regex_accepts(pattern: Seq<char>) -> bool;

/// What `regex::Regex::replace_all` returns on `haystack` and `replacement`
/// for the regex that `regex::Regex::new` makes of `pattern`.
pub uninterp spec fn regex_replace_all(
    pattern: Seq<char>,
    haystack: Seq<char>,
    replacement: Seq<char>,
) -> Seq<char>;

/// The error of `regex::Regex::new`, as a value that is only passed on.
#[verifier::external_type_specification]
#[verifier::external_body]
pub struct ExRegexError(regex::Error);

/// Compiles `pattern` with `regex::Regex::new` and, where the pattern is
/// accepted, replaces every match in `haystack` with
/// `regex::Regex::replace_all`. The contract only names the two results: the
/// error comes exactly where the pattern is not accepted.
#[verifier::external_body]
fn replace_all(pattern: &str, haystack: &str, replacement: &str) -> (r: Result<
    String,
    regex::Error,
>)
    ensures
        match r {
            Ok(out) => regex_accepts(pattern@) && out@ == regex_replace_all(
                pattern@,
                haystack@,
                replacement@,
            ),
            Err(_) => !regex_accepts(pattern@),
        },
{
    let re = regex::Regex::new(pattern)?;
    Ok(re.replace_all(haystack, replacement).into_owned())
}

/// `s` with a line feed added at its end, unless it is empty or ends in one.
pub open spec fn with_final_newline(s: Seq<char>) -> Seq<char> {
    if s.len() > 0 && s.last() != '\n' {
        s.push('\n')
    } else {
        s
    }
}

/// What a file holds once `change` is applied to it, given what it holds
/// now. An empty search text replaces the whole file; any other must occur
/// exactly once, counted from the left without overlap.
pub open spec fn applied(change: FileChangeView, current: Seq<char>) -> Result<
    Seq<char>,
    PatchErrorView,
> {
    if change.search_content.len() == 0 {
        Ok(with_final_newline(change.replace_content))
    } else {
        let n = count_from(current, change.search_content, 0);
        if n == 0 {
            Err(PatchErrorView::NotFound { path: change.path })
        } else if n > 1 {
            Err(PatchErrorView::Ambiguous { path: change.path, count: n })
        } else {
            Ok(
                with_final_newline(
                    replace_first(current, change.search_content, change.replace_content),
                ),
            )
        }
    }
}

/// The message of the commit: `message`, or a fixed text where it is empty.
pub open spec fn final_message(message: Seq<char>) -> Seq<char> {
    if message.len() == 0 {
        "Apply changes from LLM"@
    } else {
        message
    }
}

fn end_with_newline(content: Vec<char>) -> (out: Vec<char>)
    ensures
        out@ == with_final_newline(content@),
{
    let mut out = content;
    if out.len() > 0 && out[out.len() - 1] != '\n' {
        out.push('\n');
    }
    out
}

impl FileChange {
    /// The new content of the file, given its present content.
    pub fn apply_to(&self, current: &str) -> (r: Result<String, PatchError>)
        ensures
            match r {
                Ok(out) => applied(self@, current@) == Ok::<Seq<char>, PatchErrorView>(out@),
                Err(e) => applied(self@, current@) == Err::<Seq<char>, PatchErrorView>(e@),
            },
    {
        let search = chars_of(self.search_content.as_str());
        let replace = chars_of(self.replace_content.as_str());
        if search.len() == 0 {
            return Ok(string_of(&end_with_newline(replace)));
        }
        let hay = chars_of(current);
        let n = count_matches(&hay, &search);
        if n == 0 {
            Err(PatchError::NotFound { path: self.path.clone() })
        } else if n > 1 {
            Err(PatchError::Ambiguous { path: self.path.clone(), count: n })
        } else {
            Ok(string_of(&end_with_newline(replace_once(&hay, &search, &replace))))
        }
    }
}

/// What the driver of a run is asked to do next.
#[derive(Debug, PartialEq, Eq)]
pub enum Step {
    /// Find the canonical, absolute place of `path`.
    Resolve { path: String },
    /// Read the file at `path` as text.
    Read { path: String },
    /// Make the directories above `path` and write `content` to it.
    Write { path: String, content: String },
    /// Add `path` to the index of the version control system.
    Add { path: String },
    /// Commit the index with `message`.
    Commit { message: String },
    /// Nothing is left to do.
    Finished,
    /// The run has ended with `error`.
    Failed { error: PatchError },
}

/// What a `Step` holds, as character sequences.
pub ghost enum StepView {
    Resolve { path: Seq<char> },
    Read { path: Seq<char> },
    Write { path: Seq<char>, content: Seq<char> },
    Add { path: Seq<char> },
    Commit { message: Seq<char> },
    Finished,
    Failed { error: PatchErrorView },
}

impl View for Step {
    type V = StepView;

    open spec fn view(&self) -> StepView {
        match self {
            Step::Resolve { path } => StepView::Resolve { path: path@ },
            Step::Read { path } => StepView::Read { path: path@ },
            Step::Write { path, content } => StepView::Write { path: path@, content: content@ },
            Step::Add { path } => StepView::Add { path: path@ },
            Step::Commit { message } => StepView::Commit { message: message@ },
            Step::Finished => StepView::Finished,
            Step::Failed { error } => StepView::Failed { error: error@ },
        }
    }
}

/// What the driver reports of the step it was asked for.
#[derive(Debug, PartialEq, Eq)]
pub enum Report {
    /// The canonical, absolute place of the path.
    Resolved { canonical: String },
    /// The text of the file.
    Content { text: String },
    /// The file was written, or the command ended with success.
    Done,
    /// The command ended with a failure status.
    ToolFailed,
    /// The step could not be carried out.
    IoFailed,
}

/// What a `Report` holds, as character sequences.
pub ghost enum ReportView {
    Resolved { canonical: Seq<char> },
    Content { text: Seq<char> },
    Done,
    ToolFailed,
    IoFailed,
}

impl View for Report {
    type V = ReportView;

    open spec fn view(&self) -> ReportView {
        match self {
            Report::Resolved { canonical } => ReportView::Resolved { canonical: canonical@ },
            Report::Content { text } => ReportView::Content { text: text@ },
            Report::Done => ReportView::Done,
            Report::ToolFailed => ReportView::ToolFailed,
            Report::IoFailed => ReportView::IoFailed,
        }
    }
}

/// Where a run stands.
#[derive(Debug, Clone, Copy, PartialEq, Eq)]
pub enum Phase {
    /// The places of the files are being held against the project root.
    Checking,
    /// The file of the current edit is being read.
    Reading,
    /// The file of the current edit is being written.
    Writing,
    /// The files are being added to the index.
    Staging,
    /// The commit is being made.
    Committing,
    /// The run has ended.
    Closed,
}

/// A run that applies a list of edits and commits them, one step at a time.
pub struct ApplyRun {
    changes: Vec<FileChange>,
    message: String,
    root: Option<String>,
    phase: Phase,
    index: usize,
}

/// The state of a run.
pub ghost struct RunView {
    pub changes: Seq<FileChangeView>,
    pub message: Seq<char>,
    pub root: Option<Seq<char>>,
    pub phase: Phase,
    pub index: int,
}

impl View for ApplyRun {
    type V = RunView;

    closed spec fn view(&self) -> RunView {
        RunView {
            changes: change_views(self.changes@),
            message: self.message@,
            root: option_view(self.root),
            phase: self.phase,
            index: self.index as int,
        }
    }
}

/// The run ends with `error`.
pub open spec fn fail(run: RunView, error: PatchErrorView) -> (RunView, StepView) {
    (RunView { phase: Phase::Closed, ..run }, StepView::Failed { error })
}

/// The run turns to edit `i`: it is written at once where its search text
/// is empty, and read first where it is not. Behind the last edit the files
/// are added to the index, in the order of the edits.
pub open spec fn turn_to(run: RunView, i: int) -> (RunView, StepView) {
    if i < 0 || i >= run.changes.len() {
        (
            RunView { phase: Phase::Staging, index: 0, ..run },
            StepView::Add { path: run.changes[0].path },
        )
    } else if run.changes[i].search_content.len() == 0 {
        (
            RunView { phase: Phase::Writing, index: i, ..run },
            StepView::Write {
                path: run.changes[i].path,
                content: with_final_newline(run.changes[i].replace_content),
            },
        )
    } else {
        (
            RunView { phase: Phase::Reading, index: i, ..run },
            StepView::Read { path: run.changes[i].path },
        )
    }
}

/// How a run starts. Without edits nothing is done. With a project root the
/// place of every edit is checked before any file is touched.
pub open spec fn start(
    message: Seq<char>,
    changes: Seq<FileChangeView>,
    root: Option<Seq<char>>,
) -> (RunView, StepView) {
    let run = RunView { changes, message, root, phase: Phase::Closed, index: 0 };
    if changes.len() == 0 {
        (run, StepView::Finished)
    } else if root is Some {
        (RunView { phase: Phase::Checking, ..run }, StepView::Resolve { path: changes[0].path })
    } else {
        turn_to(run, 0)
    }
}

/// How a run goes on when the driver reports of the step it was asked for.
pub open spec fn next(run: RunView, report: ReportView) -> (RunView, StepView) {
    if run.index < 0 || run.index >= run.changes.len() {
        fail(run, PatchErrorView::OutOfTurn)
    } else {
        let change = run.changes[run.index];
        let last = run.index + 1 >= run.changes.len();
        match (run.phase, report, run.root) {
            (Phase::Checking, ReportView::Resolved { canonical }, Some(root)) => {
                if !within(canonical, root) {
                    fail(run, PatchErrorView::Unauthorized { path: change.path, root })
                } else if last {
                    turn_to(run, 0)
                } else {
                    (
                        RunView { index: run.index + 1, ..run },
                        StepView::Resolve { path: run.changes[run.index + 1].path },
                    )
                }
            },
            (Phase::Reading, ReportView::Content { text }, _) => match applied(change, text) {
                Ok(content) => (
                    RunView { phase: Phase::Writing, ..run },
                    StepView::Write { path: change.path, content },
                ),
                Err(error) => fail(run, error),
            },
            (Phase::Writing, ReportView::Done, _) => turn_to(run, run.index + 1),
            (Phase::Staging, ReportView::Done, _) => {
                if last {
                    (
                        RunView { phase: Phase::Committing, ..run },
                        StepView::Commit { message: final_message(run.message) },
                    )
                } else {
                    (
                        RunView { index: run.index + 1, ..run },
                        StepView::Add { path: run.changes[run.index + 1].path },
                    )
                }
            },
            (Phase::Staging, ReportView::ToolFailed, _) => fail(
                run,
                PatchErrorView::AddFailed { path: change.path },
            ),
            (Phase::Committing, ReportView::Done, _) => (
                RunView { phase: Phase::Closed, ..run },
                StepView::Finished,
            ),
            (Phase::Committing, ReportView::ToolFailed, _) => fail(
                run,
                PatchErrorView::CommitFailed,
            ),
            (Phase::Closed, _, _) => fail(run, PatchErrorView::OutOfTurn),
            (_, ReportView::IoFailed, _) => fail(run, PatchErrorView::Io),
            _ => fail(run, PatchErrorView::OutOfTurn),
        }
    }
}

impl ApplyRun {
    fn close(&mut self, error: PatchError) -> (step: Step)
        ensures
            (final(self)@, step@) == fail(old(self)@, error@),
    {
        self.phase = Phase::Closed;
        Step::Failed { error }
    }

    fn turn(&mut self, i: usize) -> (step: Step)
        requires
            old(self).changes.len() > 0,
        ensures
            (final(self)@, step@) == turn_to(old(self)@, i as int),
    {
        if i >= self.changes.len() {
            self.phase = Phase::Staging;
            self.index = 0;
            Step::Add { path: self.changes[0].path.clone() }
        } else if self.changes[i].search_content.as_str().unicode_len() == 0 {
            self.phase = Phase::Writing;
            self.index = i;
            let content = end_with_newline(chars_of(self.changes[i].replace_content.as_str()));
            Step::Write { path: self.changes[i].path.clone(), content: string_of(&content) }
        } else {
            self.phase = Phase::Reading;
            self.index = i;
            Step::Read { path: self.changes[i].path.clone() }
        }
    }

    /// Takes the driver's report of the step that was asked for, and says
    /// what is to be done next.
    pub fn advance(&mut self, report: Report) -> (step: Step)
        ensures
            (final(self)@, step@) == next(old(self)@, report@),
    {
        if self.index >= self.changes.len() {
            return self.close(PatchError::OutOfTurn);
        }
        let last = self.index + 1 >= self.changes.len();
        match self.phase {
            Phase::Checking => match report {
                Report::Resolved { canonical } => {
                    let root = match &self.root {
                        Some(r) => r.clone(),
                        None => {
                            return self.close(PatchError::OutOfTurn);
                        },
                    };
                    if !lies_within(canonical.as_str(), root.as_str()) {
                        let path = self.changes[self.index].path.clone();
                        self.close(PatchError::Unauthorized { path, root })
                    } else if last {
                        self.turn(0)
                    } else {
                        self.index = self.index + 1;
                        Step::Resolve { path: self.changes[self.index].path.clone() }
                    }
                },
                Report::IoFailed => self.close(PatchError::Io),
                _ => self.close(PatchError::OutOfTurn),
            },
            Phase::Reading => match report {
                Report::Content { text } => {
                    match self.changes[self.index].apply_to(text.as_str()) {
                        Ok(content) => {
                            self.phase = Phase::Writing;
                            Step::Write { path: self.changes[self.index].path.clone(), content }
                        },
                        Err(error) => self.close(error),
                    }
                },
                Report::IoFailed => self.close(PatchError::Io),
                _ => self.close(PatchError::OutOfTurn),
            },
            Phase::Writing => match report {
                Report::Done => {
                    let i = self.index + 1;
                    self.turn(i)
                },
                Report::IoFailed => self.close(PatchError::Io),
                _ => self.close(PatchError::OutOfTurn),
            },
            Phase::Staging => match report {
                Report::Done => {
                    if last {
                        self.phase = Phase::Committing;
                        let message = if self.message.as_str().unicode_len() == 0 {
                            "Apply changes from LLM".to_owned()
                        } else {
                            self.message.clone()
                        };
                        Step::Commit { message }
                    } else {
                        self.index = self.index + 1;
                        Step::Add { path: self.changes[self.index].path.clone() }
                    }
                },
                Report::ToolFailed => {
                    let path = self.changes[self.index].path.clone();
                    self.close(PatchError::AddFailed { path })
                },
                Report::IoFailed => self.close(PatchError::Io),
                _ => self.close(PatchError::OutOfTurn),
            },
            Phase::Committing => match report {
                Report::Done => {
                    self.phase = Phase::Closed;
                    Step::Finished
                },
                Report::ToolFailed => self.close(PatchError::CommitFailed),
                Report::IoFailed => self.close(PatchError::Io),
                _ => self.close(PatchError::OutOfTurn),
            },
            Phase::Closed => self.close(PatchError::OutOfTurn),
        }
    }

    /// Whether the run has ended.
    pub fn is_closed(&self) -> (r: bool)
        ensures
            r == (self@.phase == Phase::Closed),
    {
        match self.phase {
            Phase::Closed => true,
            _ => false,
        }
    }
}

/// The steps that a run asks for as the driver reports one by one.
pub open spec fn steps_after(run: RunView, reports: Seq<ReportView>) -> Seq<StepView>
    decreases reports.len(),
{
    if reports.len() == 0 {
        Seq::empty()
    } else {
        seq![next(run, reports[0]).1] + steps_after(next(run, reports[0]).0, reports.drop_first())
    }
}

/// Whether a step changes the working tree or the repository.
pub open spec fn touches_files(step: StepView) -> bool {
    step is Write || step is Add || step is Commit
}

/// Whether a report gives a canonical place that lies within `root`.
pub open spec fn reports_inside(report: ReportView, root: Seq<char>) -> bool {
    match report {
        ReportView::Resolved { canonical } => within(canonical, root),
        _ => false,
    }
}

/// One step is asked for after each report.
pub proof fn lemma_steps_len(run: RunView, reports: Seq<ReportView>)
    ensures
        steps_after(run, reports).len() == reports.len(),
    decreases reports.len(),
{
    if reports.len() > 0 {
        lemma_steps_len(next(run, reports[0]).0, reports.drop_first());
    }
}

proof fn lemma_steps_index(run: RunView, reports: Seq<ReportView>, i: int)
    requires
        0 <= i < reports.len(),
    ensures
        steps_after(run, reports).len() == reports.len(),
        i == 0 ==> steps_after(run, reports)[i] == next(run, reports[0]).1,
        i > 0 ==> steps_after(run, reports)[i] == steps_after(
            next(run, reports[0]).0,
            reports.drop_first(),
        )[i - 1],
{
    lemma_steps_len(run, reports);
    lemma_steps_len(next(run, reports[0]).0, reports.drop_first());
}

proof fn lemma_closed_stays_closed(run: RunView, reports: Seq<ReportView>, i: int)
    requires
        run.phase == Phase::Closed,
        0 <= i < reports.len(),
    ensures
        steps_after(run, reports)[i] is Failed,
    decreases reports.len(),
{
    lemma_steps_index(run, reports, i);
    if i > 0 {
        lemma_closed_stays_closed(next(run, reports[0]).0, reports.drop_first(), i - 1);
    }
}

proof fn lemma_checking_touches_nothing(
    run: RunView,
    root: Seq<char>,
    reports: Seq<ReportView>,
    k: int,
    i: int,
)
    requires
        run.phase == Phase::Checking,
        run.root == Some(root),
        0 <= run.index <= k < run.changes.len(),
        k - run.index < reports.len() ==> !reports_inside(reports[k - run.index], root),
        0 <= i < reports.len(),
    ensures
        !touches_files(steps_after(run, reports)[i]),
    decreases reports.len(),
{
    let after = next(run, reports[0]).0;
    let rest = reports.drop_first();
    lemma_steps_index(run, reports, i);
    if i > 0 {
        if reports_inside(reports[0], root) {
            assert(run.index < k);
            assert(after.phase == Phase::Checking && after.index == run.index + 1);
            assert(k - after.index < rest.len() ==> rest[k - after.index] == reports[k
                - run.index]);
            lemma_checking_touches_nothing(after, root, rest, k, i - 1);
        } else {
            assert(after.phase == Phase::Closed);
            lemma_closed_stays_closed(after, rest, i - 1);
        }
    }
}

/// With a project root, the place of every edit is checked before any file
/// is touched: where the place of edit `k` is not reported to lie within the
/// root, no step of the run writes a file, adds one or commits, whatever the
/// driver reports.
pub proof fn lemma_containment_comes_first(
    message: Seq<char>,
    changes: Seq<FileChangeView>,
    root: Seq<char>,
    reports: Seq<ReportView>,
    k: int,
    i: int,
)
    requires
        0 <= k < changes.len(),
        k < reports.len() ==> !reports_inside(reports[k], root),
        0 <= i < reports.len(),
    ensures
        !touches_files(start(message, changes, Some(root)).1),
        !touches_files(steps_after(start(message, changes, Some(root)).0, reports)[i]),
        k < reports.len() && (forall|j: int| 0 <= j < k ==> reports_inside(reports[j], root))
            && reports[k] is Resolved ==> steps_after(
            start(message, changes, Some(root)).0,
            reports,
        )[k] == (StepView::Failed {
            error: PatchErrorView::Unauthorized { path: changes[k].path, root },
        }),
{
    let run = start(message, changes, Some(root)).0;
    lemma_checking_touches_nothing(run, root, reports, k, i);
    if k < reports.len() && (forall|j: int| 0 <= j < k ==> reports_inside(reports[j], root))
        && reports[k] is Resolved {
        lemma_outside_is_refused(run, root, reports, k);
    }
}

proof fn lemma_outside_is_refused(run: RunView, root: Seq<char>, reports: Seq<ReportView>, k: int)
    requires
        run.phase == Phase::Checking,
        run.root == Some(root),
        0 <= run.index <= k < run.changes.len(),
        k - run.index < reports.len(),
        forall|j: int| 0 <= j < k - run.index ==> reports_inside(reports[j], root),
        reports[k - run.index] is Resolved,
        !reports_inside(reports[k - run.index], root),
    ensures
        steps_after(run, reports)[k - run.index] == (StepView::Failed {
            error: PatchErrorView::Unauthorized { path: run.changes[k].path, root },
        }),
    decreases reports.len(),
{
    lemma_steps_index(run, reports, k - run.index);
    if run.index < k {
        let after = next(run, reports[0]).0;
        let rest = reports.drop_first();
        assert(reports_inside(reports[0], root));
        assert(after.phase == Phase::Checking && after.index == run.index + 1);
        assert forall|j: int| 0 <= j < k - after.index implies reports_inside(rest[j], root) by {
            assert(rest[j] == reports[j + 1]);
        }
        assert(rest[k - after.index] == reports[k - run.index]);
        lemma_outside_is_refused(after, root, rest, k);
    }
}

proof fn lemma_no_block_from(lines: Seq<Seq<char>>, i: int)
    requires
        0 <= i <= lines.len(),
        forall|k: int| block_at(lines, k) is None,
    ensures
        changes_from(lines, i).len() == 0,
        loose_from(lines, i) == lines.skip(i),
    decreases lines.len() - i,
{
    if i < lines.len() {
        assert(block_at(lines, i) is None);
        lemma_no_block_from(lines, i + 1);
        assert(lines.skip(i) =~= seq![lines[i]] + lines.skip(i + 1));
    } else {
        assert(lines.skip(i) =~= Seq::<Seq<char>>::empty());
    }
}

/// A response without a closed block proposes no edit, and all its lines
/// are loose. Where no line of such a response ends in a carriage return and
/// a line feed, and taking out fenced code leaves its loose text as it is,
/// the commit message is the trimmed response.
pub proof fn lemma_response_without_blocks(response: Seq<char>, stripped: Seq<char>)
    requires
        forall|k: int| block_at(lines_of(response), k) is None,
    ensures
        changes_of(response).len() == 0,
        loose_text(response) == join_lines(lines_of(response)),
        no_crlf(response) && stripped == loose_text(response) ==> trimmed(stripped) == trimmed(
            response,
        ),
{
    let lines = lines_of(response);
    lemma_no_block_from(lines, 0);
    assert(lines.skip(0) == lines);
    if no_crlf(response) {
        lemma_join_lines_of(response);
        if response.len() > 0 && response.last() == '\n' {
            lemma_trimmed_drop_last(response);
        }
    }
}

/// The hook that applies the edits of a response and commits them.
pub struct PostprocessorHook {}

impl PostprocessorHook {
    /// Parts a response into the text outside its closed blocks and the
    /// edits that the blocks stand for.
    pub fn split_response(&self, response: &str) -> (r: (String, Vec<FileChange>))
        ensures
            r.0@ == loose_text(response@),
            change_views(r.1@) == changes_of(response@),
    {
        let lines = split_lines(&chars_of(response));
        let (changes, loose) = scan_blocks(&lines);
        let text = join_range(&loose, 0, loose.len());
        assert(views(loose@).subrange(0, loose.len() as int) == views(loose@));
        (string_of(&text), changes)
    }

    /// The commit message, given the loose text of a response with its
    /// fenced code taken out.
    pub fn clean_message(&self, stripped: &str) -> (r: String)
        ensures
            r@ == trimmed(stripped@),
    {
        string_of(&trim(&chars_of(stripped)))
    }

    /// Starts a run that applies `changes` and commits them with
    /// `commit_message`, and says what is to be done first.
    pub fn apply_and_commit_changes(
        &self,
        commit_message: &str,
        changes: Vec<FileChange>,
        project_root: Option<String>,
    ) -> (r: (ApplyRun, Step))
        ensures
            (r.0@, r.1@) == start(
                commit_message@,
                change_views(changes@),
                option_view(project_root),
            ),
    {
        let mut run = ApplyRun {
            changes,
            message: commit_message.to_owned(),
            root: project_root,
            phase: Phase::Closed,
            index: 0,
        };
        if run.changes.len() == 0 {
            (run, Step::Finished)
        } else if run.root.is_some() {
            run.phase = Phase::Checking;
            let step = Step::Resolve { path: run.changes[0].path.clone() };
            (run, step)
        } else {
            let step = run.turn(0);
            (run, step)
        }
    }

    /// Reads a response: the commit message, which is the text outside the
    /// closed blocks without fenced code and trimmed, and the edits.
    pub fn parse_changes(&self, response: &str) -> (r: Result<
        (String, Vec<FileChange>),
        PatchError,
    >)
        ensures
            match r {
                Ok((message, changes)) => regex_accepts(FENCE_PATTERN@) && message@ == trimmed(
                    regex_replace_all(
                        FENCE_PATTERN@,
                        loose_text(response@),
                        Seq::<char>::empty(),
                    ),
                ) && change_views(changes@) == changes_of(response@),
                Err(e) => !regex_accepts(FENCE_PATTERN@) && e@ == PatchErrorView::BadPattern,
            },
    {
        let (loose, changes) = self.split_response(response);
        proof {
            reveal_strlit("");
            assert(""@ =~= Seq::<char>::empty());
        }
        match replace_all(FENCE_PATTERN, loose.as_str(), "") {
            Ok(stripped) => Ok((self.clean_message(stripped.as_str()), changes)),
            Err(_) => Err(PatchError::BadPattern),
        }
    }

    /// Reads a response and starts the run that applies and commits its
    /// edits; without edits the run has nothing to do.
    pub fn post_send(&self, llm_response: &str, project_root: &Option<String>) -> (r: Result<
        (ApplyRun, Step),
        PatchError,
    >)
        ensures
            match r {
                Ok((run, step)) => regex_accepts(FENCE_PATTERN@) && (run@, step@) == start(
                    trimmed(
                        regex_replace_all(
                            FENCE_PATTERN@,
                            loose_text(llm_response@),
                            Seq::<char>::empty(),
                        ),
                    ),
                    changes_of(llm_response@),
                    option_view(*project_root),
                ),
                Err(e) => !regex_accepts(FENCE_PATTERN@) && e@ == PatchErrorView::BadPattern,
            },
    {
        match self.parse_changes(llm_response) {
            Ok((message, changes)) => {
                let root = match project_root {
                    Some(p) => Some(p.clone()),
                    None => None,
                };
                Ok(self.apply_and_commit_changes(message.as_str(), changes, root))
            },
            Err(e) => Err(e),
        }
    }
}

} // verus!