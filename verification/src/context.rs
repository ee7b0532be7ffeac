//! The file context of a turn: what a message recorded, what is staged for
//! the next one, and how the two are merged.

use crate::sorted::{lemma_insert, lemma_lookup_at, lemma_update, lookup, sorted_keys};
use crate::text::{chars_of, holds, lex_less, precedes, same_chars, texts};
use vstd::prelude::*;

verus! {

/// A file that was visible to the model, with the hash of what it held.
#[derive(Debug, Clone, PartialEq, Eq)]
pub struct FileMetadata {
    pub path: String,
    pub hash: String,
}

/// The files that were visible to the model for one turn.
#[derive(Debug, Clone, PartialEq, Eq)]
pub struct MessageMetadata {
    pub read_write_files: Vec<FileMetadata>,
    pub read_only_files: Vec<FileMetadata>,
}

/// The paths of a list of recorded files, in order.
pub open spec fn recorded_paths(files: Seq<FileMetadata>) -> Seq<Seq<char>> {
    Seq::new(files.len(), |i: int| files[i].path@)
}

/// The hashes of a list of recorded files, in order.
pub open spec fn recorded_hashes(files: Seq<FileMetadata>) -> Seq<Seq<char>> {
    Seq::new(files.len(), |i: int| files[i].hash@)
}

impl Default for MessageMetadata {
    fn default() -> (m: Self)
        ensures
            m.read_write_files@.len() == 0,
            m.read_only_files@.len() == 0,
    {
        MessageMetadata { read_write_files: Vec::new(), read_only_files: Vec::new() }
    }
}

/// What is staged for the next turn: files to show, and files to keep out
/// of what is inherited.
#[derive(Debug, Clone, PartialEq, Eq)]
pub struct ContextStage {
    pub name: String,
    pub read_write_files: Vec<String>,
    pub read_only_files: Vec<String>,
    pub dropped_files: Vec<String>,
}

/// What a `ContextStage` holds, as character sequences.
pub ghost struct StageView {
    pub name: Seq<char>,
    pub read_write_files: Seq<Seq<char>>,
    pub read_only_files: Seq<Seq<char>>,
    pub dropped_files: Seq<Seq<char>>,
}

impl View for ContextStage {
    type V = StageView;

    open spec fn view(&self) -> StageView {
        StageView {
            name: self.name@,
            read_write_files: texts(self.read_write_files@),
            read_only_files: texts(self.read_only_files@),
            dropped_files: texts(self.dropped_files@),
        }
    }
}

impl Default for ContextStage {
    fn default() -> (s: Self)
        ensures
            s@ == (StageView {
                name: Seq::empty(),
                read_write_files: Seq::empty(),
                read_only_files: Seq::empty(),
                dropped_files: Seq::empty(),
            }),
    {
        let s = ContextStage {
            name: String::new(),
            read_write_files: Vec::new(),
            read_only_files: Vec::new(),
            dropped_files: Vec::new(),
        };
        assert(s@.read_write_files =~= Seq::empty());
        assert(s@.read_only_files =~= Seq::empty());
        assert(s@.dropped_files =~= Seq::empty());
        s
    }
}

/// `list` without every occurrence of `path`.
pub open spec fn without(list: Seq<Seq<char>>, path: Seq<char>) -> Seq<Seq<char>>
    decreases list.len(),
{
    if list.len() == 0 {
        list
    } else if list.last() == path {
        without(list.drop_last(), path)
    } else {
        without(list.drop_last(), path).push(list.last())
    }
}

/// `list` with `path` at its end, unless it holds `path` already.
pub open spec fn with_path(list: Seq<Seq<char>>, path: Seq<char>) -> Seq<Seq<char>> {
    if list.contains(path) {
        list
    } else {
        list.push(path)
    }
}

/// The stage after `path` was staged as read-only or as read-write.
pub open spec fn stage_added(stage: StageView, path: Seq<char>, read_only: bool) -> StageView {
    if read_only {
        StageView {
            read_write_files: without(stage.read_write_files, path),
            read_only_files: with_path(stage.read_only_files, path),
            dropped_files: without(stage.dropped_files, path),
            ..stage
        }
    } else {
        StageView {
            read_write_files: with_path(stage.read_write_files, path),
            read_only_files: without(stage.read_only_files, path),
            dropped_files: without(stage.dropped_files, path),
            ..stage
        }
    }
}

/// The stage after `path` was dropped.
pub open spec fn stage_removed(stage: StageView, path: Seq<char>) -> StageView {
    StageView {
        read_write_files: without(stage.read_write_files, path),
        read_only_files: without(stage.read_only_files, path),
        dropped_files: with_path(stage.dropped_files, path),
        ..stage
    }
}

/// The stage with its three lists empty.
pub open spec fn stage_cleared(stage: StageView) -> StageView {
    StageView {
        read_write_files: Seq::empty(),
        read_only_files: Seq::empty(),
        dropped_files: Seq::empty(),
        ..stage
    }
}

/// Whether a stage is tidy: no path is listed twice, in one list or in two.
pub open spec fn tidy(stage: StageView) -> bool {
    &&& stage.read_write_files.no_duplicates()
    &&& stage.read_only_files.no_duplicates()
    &&& stage.dropped_files.no_duplicates()
    &&& forall|p: Seq<char>|
        !(stage.read_write_files.contains(p) && stage.read_only_files.contains(p))
    &&& forall|p: Seq<char>|
        !(stage.read_write_files.contains(p) && stage.dropped_files.contains(p))
    &&& forall|p: Seq<char>|
        !(stage.read_only_files.contains(p) && stage.dropped_files.contains(p))
}

/// What `without` keeps: every path but the one taken out, in order and as
/// often as before.
pub proof fn lemma_without(list: Seq<Seq<char>>, path: Seq<char>)
    ensures
        !without(list, path).contains(path),
        forall|q: Seq<char>| q != path ==> (without(list, path).contains(q) <==> list.contains(q)),
        !list.contains(path) ==> without(list, path) == list,
        list.no_duplicates() ==> without(list, path).no_duplicates(),
        without(list, path).len() <= list.len(),
    decreases list.len(),
{
    if list.len() > 0 {
        let front = list.drop_last();
        let last = list.last();
        lemma_without(front, path);
        let kept = without(front, path);
        assert(list == front.push(last));
        assert forall|q: Seq<char>| true implies (list.contains(q) <==> (last == q
            || front.contains(q))) by {
            vstd::seq_lib::lemma_seq_contains_after_push(front, last, q);
        }
        assert forall|q: Seq<char>| true implies (kept.push(last).contains(q) <==> (last == q
            || kept.contains(q))) by {
            vstd::seq_lib::lemma_seq_contains_after_push(kept, last, q);
        }
        if list.no_duplicates() {
            assert(front.no_duplicates());
            assert(!front.contains(last)) by {
                if front.contains(last) {
                    let i = choose|i: int| 0 <= i < front.len() && front[i] == last;
                    assert(list[i] == list[list.len() - 1]);
                }
            }
            if last != path {
                assert forall|i: int, j: int|
                    0 <= i < kept.len() + 1 && 0 <= j < kept.len() + 1 && i != j implies kept.push(
                    last,
                )[i] != kept.push(last)[j] by {
                    if i < kept.len() && j < kept.len() {
                    } else if i < kept.len() {
                        assert(kept.contains(kept[i]));
                    } else {
                        assert(kept.contains(kept[j]));
                    }
                }
            }
        }
    }
}

fn drop_path(list: &Vec<String>, path: &str) -> (out: Vec<String>)
    ensures
        texts(out@) == without(texts(list@), path@),
{
    let wanted = chars_of(path);
    let mut out: Vec<String> = Vec::new();
    let mut i: usize = 0;
    assert(texts(list@).take(0) =~= Seq::<Seq<char>>::empty());
    assert(texts(out@) =~= Seq::<Seq<char>>::empty());
    while i < list.len()
        invariant
            i <= list.len(),
            wanted@ == path@,
            texts(out@) == without(texts(list@).take(i as int), path@),
        decreases list.len() - i,
    {
        let ghost before = texts(out@);
        let ghost upto = texts(list@).take(i + 1);
        assert(upto.drop_last() == texts(list@).take(i as int));
        assert(upto.last() == list@[i as int]@);
        let here = chars_of(list[i].as_str());
        if !same_chars(&here, &wanted) {
            out.push(list[i].clone());
            assert(texts(out@) =~= before.push(list@[i as int]@));
        }
        i = i + 1;
    }
    assert(texts(list@).take(list.len() as int) == texts(list@));
    out
}

fn add_path(list: &mut Vec<String>, path: &str)
    ensures
        texts(final(list)@) == with_path(texts(old(list)@), path@),
{
    if !holds(list, path) {
        list.push(path.to_owned());
        assert(texts(list@) =~= texts(old(list)@).push(path@));
    }
}

impl ContextStage {
    /// Stages `file_path` as read-only or as read-write: it leaves the other
    /// list and the dropped list, and enters its list unless it is there.
    pub fn add_file(&mut self, file_path: &str, read_only: bool)
        ensures
            final(self)@ == stage_added(old(self)@, file_path@, read_only),
    {
        self.dropped_files = drop_path(&self.dropped_files, file_path);
        if read_only {
            self.read_write_files = drop_path(&self.read_write_files, file_path);
            add_path(&mut self.read_only_files, file_path);
        } else {
            self.read_only_files = drop_path(&self.read_only_files, file_path);
            add_path(&mut self.read_write_files, file_path);
        }
    }

    /// Drops `file_path`: it leaves both lists of files to show and enters
    /// the dropped list unless it is there.
    pub fn remove_file(&mut self, file_path: &str)
        ensures
            final(self)@ == stage_removed(old(self)@, file_path@),
    {
        self.read_write_files = drop_path(&self.read_write_files, file_path);
        self.read_only_files = drop_path(&self.read_only_files, file_path);
        add_path(&mut self.dropped_files, file_path);
    }

    /// Empties the three lists.
    pub fn clear(&mut self)
        ensures
            final(self)@ == stage_cleared(old(self)@),
    {
        self.read_write_files = Vec::new();
        self.read_only_files = Vec::new();
        self.dropped_files = Vec::new();
        assert(self@.read_write_files =~= Seq::empty());
        assert(self@.read_only_files =~= Seq::empty());
        assert(self@.dropped_files =~= Seq::empty());
    }
}

/// One file of a resolved context.
#[derive(Debug, Clone, PartialEq, Eq)]
pub struct ContextEntry {
    pub path: String,
    pub read_only: bool,
}

/// The files that the model sees in a turn, each read-only or read-write,
/// in the lexicographic order of their paths.
#[derive(Debug)]
pub struct FinalContext {
    entries: Vec<ContextEntry>,
}

/// What a list of entries holds: each path with its read-only flag.
pub open spec fn entry_views(v: Seq<ContextEntry>) -> Seq<(Seq<char>, bool)> {
    Seq::new(v.len(), |i: int| (v[i].path@, v[i].read_only))
}

impl View for FinalContext {
    type V = Seq<(Seq<char>, bool)>;

    closed spec fn view(&self) -> Seq<(Seq<char>, bool)> {
        entry_views(self.entries@)
    }
}

fn put(entries: &mut Vec<ContextEntry>, path: &str, read_only: bool)
    requires
        sorted_keys(entry_views(old(entries)@)),
    ensures
        sorted_keys(entry_views(final(entries)@)),
        forall|q: Seq<char>| #[trigger]
            lookup(entry_views(final(entries)@), q) == if q == path@ {
                Some(read_only)
            } else {
                lookup(entry_views(old(entries)@), q)
            },
{
    let wanted = chars_of(path);
    let ghost before = entry_views(entries@);
    let mut pos: usize = 0;
    while pos < entries.len() && precedes(&chars_of(entries[pos].path.as_str()), &wanted)
        invariant
            pos <= entries.len(),
            wanted@ == path@,
            entry_views(entries@) == before,
            forall|k: int| 0 <= k < pos ==> lex_less(#[trigger] before[k].0, path@),
        decreases entries.len() - pos,
    {
        pos = pos + 1;
    }
    let found = pos < entries.len() && same_chars(&chars_of(entries[pos].path.as_str()), &wanted);
    let entry = ContextEntry { path: path.to_owned(), read_only };
    if found {
        entries.set(pos, entry);
        proof {
            lemma_update(before, pos as int, read_only);
            assert(entry_views(entries@) =~= before.update(
                pos as int,
                (before[pos as int].0, read_only),
            ));
        }
    } else {
        entries.insert(pos, entry);
        proof {
            lemma_insert(before, pos as int, path@, read_only);
            assert(entry_views(entries@) =~= before.insert(pos as int, (path@, read_only)));
        }
    }
}

/// The flag that two lists of one origin give to `path`: read-only where
/// the read-only list holds it, read-write where only the other does.
pub open spec fn flag_in(
    read_only: Seq<Seq<char>>,
    read_write: Seq<Seq<char>>,
    path: Seq<char>,
) -> Option<bool> {
    if read_only.contains(path) {
        Some(true)
    } else if read_write.contains(path) {
        Some(false)
    } else {
        None
    }
}

/// Whether the stage names `path` in one of its three lists.
pub open spec fn touched(stage: StageView, path: Seq<char>) -> bool {
    stage.read_write_files.contains(path) || stage.read_only_files.contains(path)
        || stage.dropped_files.contains(path)
}

/// Whether `path` is visible in the next turn, and if so whether read-only.
/// What the stage says of a path always wins; a path that the stage does not
/// name is inherited.
pub open spec fn resolved(
    inherited_read_write: Seq<Seq<char>>,
    inherited_read_only: Seq<Seq<char>>,
    stage: StageView,
    path: Seq<char>,
) -> Option<bool> {
    if touched(stage, path) {
        flag_in(stage.read_only_files, stage.read_write_files, path)
    } else {
        flag_in(inherited_read_only, inherited_read_write, path)
    }
}

/// Merges what was inherited with what is staged into the context of the
/// next turn.
pub fn calculate_final_context(
    inherited_stage: &MessageMetadata,
    prepared_stage: &ContextStage,
) -> (r: FinalContext)
    ensures
        sorted_keys(r@),
        forall|p: Seq<char>| #[trigger]
            lookup(r@, p) == resolved(
                recorded_paths(inherited_stage.read_write_files@),
                recorded_paths(inherited_stage.read_only_files@),
                prepared_stage@,
                p,
            ),
{
    let mut entries: Vec<ContextEntry> = Vec::new();
    let ghost rw = texts(prepared_stage.read_write_files@);
    let ghost ro = texts(prepared_stage.read_only_files@);
    let ghost irw = recorded_paths(inherited_stage.read_write_files@);
    let ghost iro = recorded_paths(inherited_stage.read_only_files@);
    let ghost none = Seq::<Seq<char>>::empty();
    let mut k: usize = 0;
    assert forall|p: Seq<char>| #[trigger]
        lookup(entry_views(entries@), p) == flag_in(none, rw.take(0), p) by {}
    while k < prepared_stage.read_write_files.len()
        invariant
            k <= prepared_stage.read_write_files.len(),
            rw == texts(prepared_stage.read_write_files@),
            none == Seq::<Seq<char>>::empty(),
            sorted_keys(entry_views(entries@)),
            forall|p: Seq<char>| #[trigger]
                lookup(entry_views(entries@), p) == flag_in(none, rw.take(k as int), p),
        decreases prepared_stage.read_write_files.len() - k,
    {
        let ghost x = rw[k as int];
        put(&mut entries, prepared_stage.read_write_files[k].as_str(), false);
        proof {
            assert(rw.take(k + 1) == rw.take(k as int).push(x));
            assert forall|p: Seq<char>| #[trigger]
                lookup(entry_views(entries@), p) == flag_in(none, rw.take(k + 1), p) by {
                vstd::seq_lib::lemma_seq_contains_after_push(rw.take(k as int), x, p);
            }
        }
        k = k + 1;
    }
    assert(rw.take(k as int) == rw);
    k = 0;
    assert(ro.take(0) =~= none);
    while k < prepared_stage.read_only_files.len()
        invariant
            k <= prepared_stage.read_only_files.len(),
            rw == texts(prepared_stage.read_write_files@),
            ro == texts(prepared_stage.read_only_files@),
            sorted_keys(entry_views(entries@)),
            forall|p: Seq<char>| #[trigger]
                lookup(entry_views(entries@), p) == flag_in(ro.take(k as int), rw, p),
        decreases prepared_stage.read_only_files.len() - k,
    {
        let ghost x = ro[k as int];
        put(&mut entries, prepared_stage.read_only_files[k].as_str(), true);
        proof {
            assert(ro.take(k + 1) == ro.take(k as int).push(x));
            assert forall|p: Seq<char>| #[trigger]
                lookup(entry_views(entries@), p) == flag_in(ro.take(k + 1), rw, p) by {
                vstd::seq_lib::lemma_seq_contains_after_push(ro.take(k as int), x, p);
            }
        }
        k = k + 1;
    }
    assert(ro.take(k as int) == ro);
    k = 0;
    assert(irw.take(0) =~= none);
    while k < inherited_stage.read_write_files.len()
        invariant
            k <= inherited_stage.read_write_files.len(),
            irw == recorded_paths(inherited_stage.read_write_files@),
            none == Seq::<Seq<char>>::empty(),
            sorted_keys(entry_views(entries@)),
            forall|p: Seq<char>| #[trigger]
                lookup(entry_views(entries@), p) == resolved(
                    irw.take(k as int),
                    none,
                    prepared_stage@,
                    p,
                ),
        decreases inherited_stage.read_write_files.len() - k,
    {
        let ghost x = irw[k as int];
        let path = inherited_stage.read_write_files[k].path.as_str();
        let skip = holds(&prepared_stage.read_write_files, path) || holds(
            &prepared_stage.read_only_files,
            path,
        ) || holds(&prepared_stage.dropped_files, path);
        if !skip {
            put(&mut entries, path, false);
        }
        proof {
            assert(irw.take(k + 1) == irw.take(k as int).push(x));
            assert forall|p: Seq<char>| #[trigger]
                lookup(entry_views(entries@), p) == resolved(
                    irw.take(k + 1),
                    none,
                    prepared_stage@,
                    p,
                ) by {
                vstd::seq_lib::lemma_seq_contains_after_push(irw.take(k as int), x, p);
            }
        }
        k = k + 1;
    }
    assert(irw.take(k as int) == irw);
    k = 0;
    assert(iro.take(0) =~= none);
    while k < inherited_stage.read_only_files.len()
        invariant
            k <= inherited_stage.read_only_files.len(),
            irw == recorded_paths(inherited_stage.read_write_files@),
            iro == recorded_paths(inherited_stage.read_only_files@),
            sorted_keys(entry_views(entries@)),
            forall|p: Seq<char>| #[trigger]
                lookup(entry_views(entries@), p) == resolved(
                    irw,
                    iro.take(k as int),
                    prepared_stage@,
                    p,
                ),
        decreases inherited_stage.read_only_files.len() - k,
    {
        let ghost x = iro[k as int];
        let path = inherited_stage.read_only_files[k].path.as_str();
        let skip = holds(&prepared_stage.read_write_files, path) || holds(
            &prepared_stage.read_only_files,
            path,
        ) || holds(&prepared_stage.dropped_files, path);
        if !skip {
            put(&mut entries, path, true);
        }
        proof {
            assert(iro.take(k + 1) == iro.take(k as int).push(x));
            assert forall|p: Seq<char>| #[trigger]
                lookup(entry_views(entries@), p) == resolved(
                    irw,
                    iro.take(k + 1),
                    prepared_stage@,
                    p,
                ) by {
                vstd::seq_lib::lemma_seq_contains_after_push(iro.take(k as int), x, p);
            }
        }
        k = k + 1;
    }
    assert(iro.take(k as int) == iro);
    FinalContext { entries }
}

impl FinalContext {
    #[verifier::type_invariant]
    spec fn in_order(self) -> bool {
        sorted_keys(entry_views(self.entries@))
    }

    /// The number of files.
    pub fn len(&self) -> (n: usize)
        ensures
            n == self@.len(),
    {
        self.entries.len()
    }

    /// Whether no file is visible.
    pub fn is_empty(&self) -> (r: bool)
        ensures
            r == (self@.len() == 0),
    {
        self.entries.len() == 0
    }

    /// The files, in the lexicographic order of their paths.
    pub fn entries(&self) -> (r: &Vec<ContextEntry>)
        ensures
            entry_views(r@) == self@,
    {
        &self.entries
    }

    /// The read-only flag of `path`, if the context lists it.
    pub fn get(&self, path: &str) -> (r: Option<bool>)
        ensures
            r == lookup(self@, path@),
    {
        proof {
            use_type_invariant(self);
        }
        let wanted = chars_of(path);
        let mut i: usize = 0;
        while i < self.entries.len()
            invariant
                i <= self.entries.len(),
                wanted@ == path@,
                sorted_keys(self@),
                forall|k: int| 0 <= k < i ==> (#[trigger] self@[k]).0 != path@,
            decreases self.entries.len() - i,
        {
            if same_chars(&chars_of(self.entries[i].path.as_str()), &wanted) {
                proof {
                    lemma_lookup_at(self@, i as int);
                }
                return Some(self.entries[i].read_only);
            }
            i = i + 1;
        }
        None
    }

    /// The paths with the given flag, in lexicographic order.
    pub fn paths_with(&self, read_only: bool) -> (r: Vec<String>)
        ensures
            texts(r@) == paths_flagged(self@, read_only),
    {
        let mut out: Vec<String> = Vec::new();
        let mut i: usize = 0;
        assert(self@.take(0) =~= Seq::empty());
        assert(texts(out@) =~= Seq::empty());
        while i < self.entries.len()
            invariant
                i <= self.entries.len(),
                texts(out@) == paths_flagged(self@.take(i as int), read_only),
            decreases self.entries.len() - i,
        {
            let ghost before = texts(out@);
            assert(self@.take(i + 1).drop_last() == self@.take(i as int));
            assert(self@.take(i + 1).last() == self@[i as int]);
            if self.entries[i].read_only == read_only {
                out.push(self.entries[i].path.clone());
                assert(texts(out@) =~= before.push(self@[i as int].0));
            }
            i = i + 1;
        }
        assert(self@.take(self.entries.len() as int) == self@);
        out
    }
}

/// The paths of `e` that carry the flag `read_only`, in order.
pub open spec fn paths_flagged(e: Seq<(Seq<char>, bool)>, read_only: bool) -> Seq<Seq<char>>
    decreases e.len(),
{
    if e.len() == 0 {
        Seq::empty()
    } else if e.last().1 == read_only {
        paths_flagged(e.drop_last(), read_only).push(e.last().0)
    } else {
        paths_flagged(e.drop_last(), read_only)
    }
}

proof fn lemma_with_path(list: Seq<Seq<char>>, path: Seq<char>)
    ensures
        with_path(list, path).contains(path),
        forall|q: Seq<char>| q != path ==> (with_path(list, path).contains(q) <==> list.contains(q)),
        list.no_duplicates() ==> with_path(list, path).no_duplicates(),
        with_path(with_path(list, path), path) == with_path(list, path),
{
    assert forall|q: Seq<char>| true implies (list.push(path).contains(q) <==> (path == q
        || list.contains(q))) by {
        vstd::seq_lib::lemma_seq_contains_after_push(list, path, q);
    }
    if list.no_duplicates() && !list.contains(path) {
        assert forall|i: int, j: int|
            0 <= i < list.len() + 1 && 0 <= j < list.len() + 1 && i != j implies list.push(
            path,
        )[i] != list.push(path)[j] by {
            if i < list.len() && j < list.len() {
            } else if i < list.len() {
                assert(list.contains(list[i]));
            } else {
                assert(list.contains(list[j]));
            }
        }
    }
}

proof fn lemma_tidy_by_membership(before: StageView, after: StageView)
    requires
        tidy(before),
        after.read_write_files.no_duplicates(),
        after.read_only_files.no_duplicates(),
        after.dropped_files.no_duplicates(),
        forall|p: Seq<char>|
            after.read_write_files.contains(p) && after.read_only_files.contains(p)
                ==> before.read_write_files.contains(p) && before.read_only_files.contains(p),
        forall|p: Seq<char>|
            after.read_write_files.contains(p) && after.dropped_files.contains(p)
                ==> before.read_write_files.contains(p) && before.dropped_files.contains(p),
        forall|p: Seq<char>|
            after.read_only_files.contains(p) && after.dropped_files.contains(p)
                ==> before.read_only_files.contains(p) && before.dropped_files.contains(p),
    ensures
        tidy(after),
{
}

/// Staging a file keeps a tidy stage tidy, and staging it twice is staging
/// it once.
pub proof fn lemma_stage_added(stage: StageView, path: Seq<char>, read_only: bool)
    ensures
        tidy(stage) ==> tidy(stage_added(stage, path, read_only)),
        stage_added(stage_added(stage, path, read_only), path, read_only) == stage_added(
            stage,
            path,
            read_only,
        ),
        flag_in(
            stage_added(stage, path, read_only).read_only_files,
            stage_added(stage, path, read_only).read_write_files,
            path,
        ) == Some(read_only),
        !stage_added(stage, path, read_only).dropped_files.contains(path),
{
    lemma_without(stage.read_write_files, path);
    lemma_without(stage.read_only_files, path);
    lemma_without(stage.dropped_files, path);
    lemma_with_path(stage.read_write_files, path);
    lemma_with_path(stage.read_only_files, path);
    let once = stage_added(stage, path, read_only);
    lemma_without(once.read_write_files, path);
    lemma_without(once.read_only_files, path);
    lemma_without(once.dropped_files, path);
    if tidy(stage) {
        lemma_tidy_by_membership(stage, once);
    }
}

/// Dropping a file keeps a tidy stage tidy, and dropping it twice is
/// dropping it once.
pub proof fn lemma_stage_removed(stage: StageView, path: Seq<char>)
    ensures
        tidy(stage) ==> tidy(stage_removed(stage, path)),
        stage_removed(stage_removed(stage, path), path) == stage_removed(stage, path),
        stage_removed(stage, path).dropped_files.contains(path),
        !stage_removed(stage, path).read_write_files.contains(path),
        !stage_removed(stage, path).read_only_files.contains(path),
{
    lemma_without(stage.read_write_files, path);
    lemma_without(stage.read_only_files, path);
    lemma_with_path(stage.dropped_files, path);
    let once = stage_removed(stage, path);
    lemma_without(once.read_write_files, path);
    lemma_without(once.read_only_files, path);
    if tidy(stage) {
        lemma_tidy_by_membership(stage, once);
    }
}

/// Dropping a file that is neither inherited nor staged changes nothing in
/// the resolved context.
pub proof fn lemma_drop_of_absent_file(
    inherited_read_write: Seq<Seq<char>>,
    inherited_read_only: Seq<Seq<char>>,
    stage: StageView,
    path: Seq<char>,
)
    requires
        !inherited_read_write.contains(path),
        !inherited_read_only.contains(path),
        !stage.read_write_files.contains(path),
        !stage.read_only_files.contains(path),
    ensures
        forall|q: Seq<char>|
            resolved(inherited_read_write, inherited_read_only, stage_removed(stage, path), q)
                == #[trigger] resolved(inherited_read_write, inherited_read_only, stage, q),
{
    lemma_without(stage.read_write_files, path);
    lemma_without(stage.read_only_files, path);
    lemma_with_path(stage.dropped_files, path);
}

/// A dropped file is not in the resolved context, whatever was inherited:
/// neither one that a tidy stage lists as dropped, nor one that has just
/// been dropped from any stage.
pub proof fn lemma_dropped_is_absent(
    inherited_read_write: Seq<Seq<char>>,
    inherited_read_only: Seq<Seq<char>>,
    stage: StageView,
    path: Seq<char>,
)
    ensures
        tidy(stage) && stage.dropped_files.contains(path) ==> resolved(
            inherited_read_write,
            inherited_read_only,
            stage,
            path,
        ) is None,
        resolved(inherited_read_write, inherited_read_only, stage_removed(stage, path), path)
            is None,
{
    lemma_stage_removed(stage, path);
}

/// What the stage says of a file that it shows overrides what was inherited
/// for the same path.
pub proof fn lemma_prepared_overrides_inherited(
    inherited_read_write: Seq<Seq<char>>,
    inherited_read_only: Seq<Seq<char>>,
    stage: StageView,
    path: Seq<char>,
)
    requires
        stage.read_write_files.contains(path) || stage.read_only_files.contains(path),
    ensures
        resolved(inherited_read_write, inherited_read_only, stage, path) == Some(
            stage.read_only_files.contains(path),
        ),
{
}

} // verus!
