//! Merging a batch of debounced filesystem events into one bulk update.
//!
//! The debouncer hands over raw events in the order in which they happened.
//! `merge_events` folds them into a `BulkFilesystemWatcherEvent`: paths that
//! were created, paths whose contents changed, paths that are gone, and
//! renames (target to original source), squashing sequences such as
//! "create then remove" or "rename a to b, then b to c".

use vstd::prelude::*;

use crate::collections::{
    assoc_map, extend_paths, insert_path, lemma_take_one_more_path, keys_distinct, put_key, remove_path, str_pairs, str_views, take_key,
};

verus! {

/// How a rename was reported.
#[derive(Clone, Copy, PartialEq, Eq, Debug, Structural)]
pub enum RenameMode {
    /// The platform could not tell which side of the rename this path is.
    Any,
    /// The path is the new name.
    To,
    /// The path is the old name.
    From,
    /// The event holds the old name, then the new one.
    Both,
    /// Some other rename report.
    Other,
}

/// The kind of a raw filesystem event, as far as merging reads it.
#[derive(Clone, Copy, PartialEq, Eq, Debug, Structural)]
pub enum FsEventKind {
    /// A file or folder was created.
    Create,
    /// The contents of a file changed.
    ModifyData,
    /// Some unspecified modification (reported for content changes on some platforms).
    ModifyAny,
    /// A file or folder was renamed.
    Rename(RenameMode),
    /// A file or folder was removed.
    Remove,
    /// Anything else (access, metadata changes, ...); merging ignores it.
    Other,
}

/// One raw filesystem event: what happened, and to which paths.
#[derive(Clone, Debug)]
pub struct FsEvent {
    pub kind: FsEventKind,
    pub paths: Vec<String>,
}

/// The mathematical content of an `FsEvent`.
pub struct FsEventView {
    pub kind: FsEventKind,
    pub paths: Seq<Seq<char>>,
}

impl View for FsEvent {
    type V = FsEventView;

    open spec fn view(&self) -> FsEventView {
        FsEventView { kind: self.kind, paths: str_views(self.paths@) }
    }
}

/// The views of a sequence of raw events.
pub open spec fn events_view(s: Seq<FsEvent>) -> Seq<FsEventView> {
    s.map_values(|e: FsEvent| e@)
}

/// A batch of filesystem changes.
#[derive(Clone, Debug)]
pub struct BulkFilesystemWatcherEvent {
    /// Paths that were created.
    pub added: Vec<String>,
    /// Paths whose contents were modified.
    pub modified: Vec<String>,
    /// Paths that should be removed.
    pub deleted: Vec<String>,
    /// Renames, each as a pair of rename target and rename source.
    pub moved: Vec<(String, String)>,
}

/// The mathematical content of a `BulkFilesystemWatcherEvent`.
#[verifier::ext_equal]
pub struct BulkEventView {
    pub added: Set<Seq<char>>,
    pub modified: Set<Seq<char>>,
    pub deleted: Set<Seq<char>>,
    pub moved: Map<Seq<char>, Seq<char>>,
}

impl View for BulkFilesystemWatcherEvent {
    type V = BulkEventView;

    open spec fn view(&self) -> BulkEventView {
        BulkEventView {
            added: str_views(self.added@).to_set(),
            modified: str_views(self.modified@).to_set(),
            deleted: str_views(self.deleted@).to_set(),
            moved: assoc_map(str_pairs(self.moved@)),
        }
    }
}

impl BulkEventView {
    /// Nothing changed.
    pub open spec fn is_empty(self) -> bool {
        &&& self.added == Set::<Seq<char>>::empty()
        &&& self.modified == Set::<Seq<char>>::empty()
        &&& self.deleted == Set::<Seq<char>>::empty()
        &&& self.moved == Map::<Seq<char>, Seq<char>>::empty()
    }
}

impl BulkFilesystemWatcherEvent {
    /// The vectors hold sets: no path occurs twice in a list, and no rename
    /// target occurs twice.
    pub open spec fn wf(&self) -> bool {
        &&& str_views(self.added@).no_duplicates()
        &&& str_views(self.modified@).no_duplicates()
        &&& str_views(self.deleted@).no_duplicates()
        &&& keys_distinct(str_pairs(self.moved@))
    }
}

/// The state of a merge after a prefix of the raw events.
pub struct MergeState {
    pub created: Set<Seq<char>>,
    pub modified: Set<Seq<char>>,
    pub deleted: Set<Seq<char>>,
    pub moved: Map<Seq<char>, Seq<char>>,
    /// The old name of a rename whose new name has not been reported yet.
    pub rename_from: Option<Seq<char>>,
}

pub open spec fn initial_merge_state() -> MergeState {
    MergeState {
        created: Set::empty(),
        modified: Set::empty(),
        deleted: Set::empty(),
        moved: Map::empty(),
        rename_from: None,
    }
}

/// Path `p` is gone, so it is no longer modified. A path created in this
/// batch is then simply forgotten; otherwise the deletion is recorded under
/// the name the path had before any rename in this batch.
pub open spec fn remove_one(s: MergeState, p: Seq<char>) -> MergeState {
    if s.created.contains(p) {
        MergeState { created: s.created.remove(p), modified: s.modified.remove(p), ..s }
    } else {
        let source = if s.moved.contains_key(p) {
            s.moved[p]
        } else {
            p
        };
        MergeState {
            modified: s.modified.remove(p),
            deleted: s.deleted.insert(source),
            moved: s.moved.remove(p),
            ..s
        }
    }
}

/// `remove_one` for each path of `ps` in turn.
pub open spec fn remove_all(s: MergeState, ps: Seq<Seq<char>>) -> MergeState
    decreases ps.len(),
{
    if ps.len() == 0 {
        s
    } else {
        remove_one(remove_all(s, ps.drop_last()), ps.last())
    }
}

/// A rename whose side is unknown, for each path of `ps` in turn: a path
/// that exists (`exists[i]`) counts as created, any other as removed.
pub open spec fn resolve_renames(s: MergeState, ps: Seq<Seq<char>>, exists: Seq<bool>) -> MergeState
    decreases ps.len(),
{
    if ps.len() == 0 {
        s
    } else {
        let t = resolve_renames(s, ps.drop_last(), exists);
        let p = ps.last();
        if exists[ps.len() - 1] {
            MergeState { created: t.created.insert(p), ..t }
        } else {
            remove_one(t, p)
        }
    }
}

/// A rename from `from` to `to`: `to` now stands for the original source of
/// `from`, which is `from` itself unless `from` was a rename target already.
pub open spec fn rename(s: MergeState, from: Seq<char>, to: Seq<char>) -> MergeState {
    let source = if s.moved.contains_key(from) {
        s.moved[from]
    } else {
        from
    };
    MergeState { moved: s.moved.remove(from).insert(to, source), ..s }
}

/// The effect of one raw event; `exists[i]` tells whether the event's `i`th
/// path exists (read only for renames whose side is unknown).
pub open spec fn merge_step(s: MergeState, e: FsEventView, exists: Seq<bool>) -> MergeState {
    match e.kind {
        FsEventKind::Create => MergeState { created: s.created.union(e.paths.to_set()), ..s },
        FsEventKind::ModifyData | FsEventKind::ModifyAny => MergeState {
            modified: s.modified.union(e.paths.to_set()),
            ..s
        },
        FsEventKind::Remove => remove_all(s, e.paths),
        FsEventKind::Rename(RenameMode::Any) => resolve_renames(s, e.paths, exists),
        FsEventKind::Rename(RenameMode::From) => if e.paths.len() > 0 {
            MergeState { rename_from: Some(e.paths[0]), ..s }
        } else {
            s
        },
        FsEventKind::Rename(RenameMode::To) => if e.paths.len() > 0 && s.rename_from is Some {
            rename(MergeState { rename_from: None, ..s }, s.rename_from->0, e.paths[0])
        } else {
            s
        },
        FsEventKind::Rename(RenameMode::Both) => if e.paths.len() > 1 {
            rename(s, e.paths[0], e.paths[1])
        } else {
            s
        },
        _ => s,
    }
}

/// The merge state after all of `evs`; `exists[i]` is the existence
/// information for `evs[i]`.
pub open spec fn merge_all(evs: Seq<FsEventView>, exists: Seq<Seq<bool>>) -> MergeState
    decreases evs.len(),
{
    if evs.len() == 0 {
        initial_merge_state()
    } else {
        merge_step(merge_all(evs.drop_last(), exists), evs.last(), exists[evs.len() - 1])
    }
}

/// The update a merge state stands for: a path created in the batch counts
/// as added, not as modified.
pub open spec fn merged_update(s: MergeState) -> BulkEventView {
    BulkEventView {
        added: s.created,
        modified: s.modified.difference(s.created),
        deleted: s.deleted,
        moved: s.moved,
    }
}

/// The result of merging `evs`: `None` where no change remains.
pub open spec fn merge_result(evs: Seq<FsEventView>, exists: Seq<Seq<bool>>) -> Option<BulkEventView> {
    let u = merged_update(merge_all(evs, exists));
    if u.is_empty() {
        None
    } else {
        Some(u)
    }
}

/// Existence information of the right shape: one flag per path of each event.
pub open spec fn exists_shape(evs: Seq<FsEventView>, exists: Seq<Seq<bool>>) -> bool {
    &&& exists.len() == evs.len()
    &&& forall|i: int| 0 <= i < evs.len() ==> #[trigger] exists[i].len() == evs[i].paths.len()
}

/// A merge produced no change.
#[derive(Clone, Copy, PartialEq, Eq, Debug, Structural)]
pub enum MergeError {
    NoUpdateEvent,
}

impl MergeError {
    /// The error's description.
    pub fn message(&self) -> (r: String)
        ensures
            r@ == "No update event produced"@,
    {
        "No update event produced".to_owned()
    }
}

/// The executable merge state.
struct PendingUpdate {
    created: Vec<String>,
    modified: Vec<String>,
    deleted: Vec<String>,
    moved: Vec<(String, String)>,
    rename_from: Option<String>,
}

impl PendingUpdate {
    spec fn view(&self) -> MergeState {
        MergeState {
            created: str_views(self.created@).to_set(),
            modified: str_views(self.modified@).to_set(),
            deleted: str_views(self.deleted@).to_set(),
            moved: assoc_map(str_pairs(self.moved@)),
            rename_from: match self.rename_from {
                Some(p) => Some(p@),
                None => None,
            },
        }
    }

    spec fn wf(&self) -> bool {
        &&& str_views(self.created@).no_duplicates()
        &&& str_views(self.modified@).no_duplicates()
        &&& str_views(self.deleted@).no_duplicates()
        &&& keys_distinct(str_pairs(self.moved@))
    }

    fn remove_one(&mut self, p: &String)
        requires
            old(self).wf(),
        ensures
            final(self).wf(),
            final(self).view() == remove_one(old(self).view(), p@),
    {
        let was_created = remove_path(&mut self.created, p);
        remove_path(&mut self.modified, p);
        if was_created {
            assert(self.view() =~= remove_one(old(self).view(), p@));
            return ;
        }
        let source = match take_key(&mut self.moved, p) {
            Some(source) => source,
            None => p.clone(),
        };
        let ghost src = source@;
        insert_path(&mut self.deleted, source);
        proof {
            let o = old(self).view();
            assert(!o.created.contains(p@));
            assert(self.view().created =~= o.created);
            assert(self.view().modified =~= o.modified.remove(p@));
            assert(src == (if o.moved.contains_key(p@) { o.moved[p@] } else { p@ }));
            assert(self.view().deleted =~= o.deleted.insert(src));
            assert(self.view().moved =~= o.moved.remove(p@));
            assert(self.view() =~= remove_one(old(self).view(), p@));
        }
    }

    fn rename(&mut self, from: String, to: String)
        requires
            old(self).wf(),
        ensures
            final(self).wf(),
            final(self).view() == rename(old(self).view(), from@, to@),
    {
        match take_key(&mut self.moved, &from) {
            Some(source) => put_key(&mut self.moved, to, source),
            None => put_key(&mut self.moved, to, from),
        }
        assert(self.view() =~= rename(old(self).view(), from@, to@));
    }

    fn apply_event(&mut self, ev: &FsEvent, exists: &Vec<bool>)
        requires
            old(self).wf(),
            exists.len() == ev.paths.len(),
        ensures
            final(self).wf(),
            final(self).view() == merge_step(old(self).view(), ev@, exists@),
    {
        let ghost start = self.view();
        match ev.kind {
            FsEventKind::Create => {
                extend_paths(&mut self.created, &ev.paths);
                assert(self.view() =~= merge_step(start, ev@, exists@));
            },
            FsEventKind::ModifyData | FsEventKind::ModifyAny => {
                extend_paths(&mut self.modified, &ev.paths);
                assert(self.view() =~= merge_step(start, ev@, exists@));
            },
            FsEventKind::Remove => {
                let mut j: usize = 0;
                while j < ev.paths.len()
                    invariant
                        j <= ev.paths.len(),
                        self.wf(),
                        self.view() == remove_all(start, ev@.paths.take(j as int)),
                    decreases ev.paths.len() - j,
                {
                    self.remove_one(&ev.paths[j]);
                    proof {
                        let ps = ev@.paths;
                        assert(ps.take(j + 1).drop_last() =~= ps.take(j as int));
                    }
                    j += 1;
                }
                proof {
                    assert(ev@.paths.take(ev.paths.len() as int) =~= ev@.paths);
                }
            },
            FsEventKind::Rename(RenameMode::Any) => {
                let mut j: usize = 0;
                while j < ev.paths.len()
                    invariant
                        j <= ev.paths.len(),
                        exists.len() == ev.paths.len(),
                        self.wf(),
                        self.view() == resolve_renames(start, ev@.paths.take(j as int), exists@),
                    decreases ev.paths.len() - j,
                {
                    let ghost before = self.view();
                    if exists[j] {
                        insert_path(&mut self.created, ev.paths[j].clone());
                        assert(self.view() =~= MergeState {
                            created: before.created.insert(ev@.paths[j as int]),
                            ..before
                        });
                    } else {
                        self.remove_one(&ev.paths[j]);
                    }
                    proof {
                        let ps = ev@.paths;
                        assert(ps.take(j + 1).drop_last() =~= ps.take(j as int));
                    }
                    j += 1;
                }
                proof {
                    assert(ev@.paths.take(ev.paths.len() as int) =~= ev@.paths);
                }
            },
            FsEventKind::Rename(RenameMode::From) => {
                if ev.paths.len() > 0 {
                    self.rename_from = Some(ev.paths[0].clone());
                }
                assert(self.view() =~= merge_step(start, ev@, exists@));
            },
            FsEventKind::Rename(RenameMode::To) => {
                if ev.paths.len() > 0 {
                    if let Some(from) = self.rename_from.take() {
                        self.rename(from, ev.paths[0].clone());
                    }
                }
                assert(self.view() =~= merge_step(start, ev@, exists@));
            },
            FsEventKind::Rename(RenameMode::Both) => {
                if ev.paths.len() > 1 {
                    self.rename(ev.paths[0].clone(), ev.paths[1].clone());
                }
            },
            _ => {},
        }
    }
}

/// The views of a list of flag lists.
pub open spec fn flags_view(s: Seq<Vec<bool>>) -> Seq<Seq<bool>> {
    s.map_values(|v: Vec<bool>| v@)
}

/// `r` is what merging `evs` with existence information `exists` gives.
pub open spec fn merged_as(
    r: Result<BulkFilesystemWatcherEvent, MergeError>,
    evs: Seq<FsEventView>,
    exists: Seq<Seq<bool>>,
) -> bool {
    match r {
        Ok(u) => u.wf() && merge_result(evs, exists) == Some(u@),
        Err(_) => merge_result(evs, exists) is None,
    }
}

proof fn lemma_empty_path_set(v: Seq<String>)
    ensures
        (str_views(v).to_set() == Set::<Seq<char>>::empty()) == (v.len() == 0),
{
    if v.len() == 0 {
        assert(str_views(v).to_set() =~= Set::<Seq<char>>::empty());
    } else {
        assert(str_views(v).to_set().contains(str_views(v)[0]));
    }
}

proof fn lemma_empty_pairs(v: Seq<(String, String)>)
    ensures
        (assoc_map(str_pairs(v)) == Map::<Seq<char>, Seq<char>>::empty()) == (v.len() == 0),
{
    if v.len() == 0 {
        assert(assoc_map(str_pairs(v)) =~= Map::<Seq<char>, Seq<char>>::empty());
    } else {
        assert(str_pairs(v)[0].0 == str_pairs(v)[0].0);
        assert(assoc_map(str_pairs(v)).contains_key(str_pairs(v)[0].0));
    }
}

impl BulkFilesystemWatcherEvent {
    /// Whether the batch holds no change at all.
    pub fn is_empty(&self) -> (r: bool)
        ensures
            r == self@.is_empty(),
            r == (self.added@.len() == 0 && self.modified@.len() == 0 && self.deleted@.len() == 0
                && self.moved@.len() == 0),
    {
        proof {
            lemma_empty_path_set(self.added@);
            lemma_empty_path_set(self.modified@);
            lemma_empty_path_set(self.deleted@);
            lemma_empty_pairs(self.moved@);
        }
        self.added.len() == 0 && self.modified.len() == 0 && self.deleted.len() == 0
            && self.moved.len() == 0
    }
}

/// Merges a batch of raw events in order; `path_exists[i][j]` tells whether
/// the `j`th path of `raw[i]` exists, which decides renames whose side the
/// platform could not report.
pub fn merge_events(raw: &Vec<FsEvent>, path_exists: &Vec<Vec<bool>>) -> (r: Result<
    BulkFilesystemWatcherEvent,
    MergeError,
>)
    requires
        exists_shape(events_view(raw@), flags_view(path_exists@)),
    ensures
        merged_as(r, events_view(raw@), flags_view(path_exists@)),
{
    let ghost evs = events_view(raw@);
    let ghost ex = flags_view(path_exists@);
    let mut st = PendingUpdate {
        created: Vec::new(),
        modified: Vec::new(),
        deleted: Vec::new(),
        moved: Vec::new(),
        rename_from: None,
    };
    proof {
        lemma_empty_path_set(st.created@);
        lemma_empty_path_set(st.modified@);
        lemma_empty_path_set(st.deleted@);
        lemma_empty_pairs(st.moved@);
        assert(st.view() =~= initial_merge_state());
        assert(evs.take(0) =~= Seq::<FsEventView>::empty());
    }
    let mut i: usize = 0;
    while i < raw.len()
        invariant
            i <= raw.len(),
            evs == events_view(raw@),
            ex == flags_view(path_exists@),
            exists_shape(evs, ex),
            st.wf(),
            st.view() == merge_all(evs.take(i as int), ex),
        decreases raw.len() - i,
    {
        proof {
            assert(ex[i as int].len() == evs[i as int].paths.len());
        }
        st.apply_event(&raw[i], &path_exists[i]);
        proof {
            let t = evs.take(i + 1);
            assert(t.drop_last() =~= evs.take(i as int));
            assert(t.last() == raw@[i as int]@);
        }
        i += 1;
    }
    proof {
        assert(evs.take(raw.len() as int) =~= evs);
    }
    let ghost merged = st.view();
    // A path created and then modified within the batch counts as added.
    let mut k: usize = 0;
    while k < st.created.len()
        invariant
            k <= st.created.len(),
            st.wf(),
            str_views(st.created@).to_set() == merged.created,
            str_views(st.deleted@).to_set() == merged.deleted,
            assoc_map(str_pairs(st.moved@)) == merged.moved,
            str_views(st.modified@).to_set() == merged.modified.difference(
                str_views(st.created@.take(k as int)).to_set(),
            ),
        decreases st.created.len() - k,
    {
        remove_path(&mut st.modified, &st.created[k]);
        proof {
            let a = str_views(st.created@.take(k as int));
            let b = str_views(st.created@.take(k + 1));
            lemma_take_one_more_path(st.created@, k as int);
            assert(str_views(st.modified@).to_set() =~= merged.modified.difference(b.to_set()));
        }
        k += 1;
    }
    proof {
        assert(st.created@.take(st.created.len() as int) =~= st.created@);
    }
    let update = BulkFilesystemWatcherEvent {
        added: st.created,
        modified: st.modified,
        deleted: st.deleted,
        moved: st.moved,
    };
    proof {
        assert(update@ =~= merged_update(merge_all(evs, ex)));
    }
    if update.is_empty() {
        Err(MergeError::NoUpdateEvent)
    } else {
        Ok(update)
    }
}

/// No event of `evs` is a rename whose side is unknown.
pub open spec fn no_ambiguous_renames(evs: Seq<FsEventView>) -> bool {
    forall|i: int| 0 <= i < evs.len() ==> #[trigger] evs[i].kind != FsEventKind::Rename(RenameMode::Any)
}

/// Existence information that says "absent" for every path.
pub open spec fn all_absent(evs: Seq<FsEventView>) -> Seq<Seq<bool>> {
    Seq::new(evs.len(), |i: int| Seq::new(evs[i].paths.len(), |j: int| false))
}

/// Existence information is read only for renames whose side is unknown:
/// two sets of it that agree on those events give the same merge.
pub proof fn lemma_merge_reads_existence_only_for_ambiguous_renames(
    evs: Seq<FsEventView>,
    ex1: Seq<Seq<bool>>,
    ex2: Seq<Seq<bool>>,
)
    requires
        ex1.len() == evs.len(),
        ex2.len() == evs.len(),
        forall|i: int|
            0 <= i < evs.len() && #[trigger] evs[i].kind == FsEventKind::Rename(RenameMode::Any)
                ==> ex1[i] == ex2[i],
    ensures
        merge_all(evs, ex1) == merge_all(evs, ex2),
        merge_result(evs, ex1) == merge_result(evs, ex2),
    decreases evs.len(),
{
    if evs.len() > 0 {
        let n = evs.len() - 1;
        let init = evs.drop_last();
        assert forall|i: int|
            0 <= i < init.len() && #[trigger] init[i].kind == FsEventKind::Rename(RenameMode::Any)
                implies ex1.take(n)[i] == ex2.take(n)[i] by {
            assert(init[i] == evs[i]);
        }
        lemma_merge_reads_existence_only_for_ambiguous_renames(init, ex1.take(n), ex2.take(n));
        lemma_merge_prefix_flags(init, ex1);
        lemma_merge_prefix_flags(init, ex2);
        let s = merge_all(init, ex1);
        let e = evs.last();
        if e.kind == FsEventKind::Rename(RenameMode::Any) {
            assert(ex1[n] == ex2[n]);
        } else {
            assert(merge_step(s, e, ex1[n]) == merge_step(s, e, ex2[n]));
        }
    }
}

/// Merging a prefix reads only the matching prefix of the existence information.
proof fn lemma_merge_prefix_flags(evs: Seq<FsEventView>, ex: Seq<Seq<bool>>)
    requires
        evs.len() <= ex.len(),
    ensures
        merge_all(evs, ex) == merge_all(evs, ex.take(evs.len() as int)),
    decreases evs.len(),
{
    if evs.len() > 0 {
        let n = evs.len() - 1;
        lemma_merge_prefix_flags(evs.drop_last(), ex);
        lemma_merge_prefix_flags(evs.drop_last(), ex.take(evs.len() as int));
        assert(ex.take(evs.len() as int).take(n) =~= ex.take(n));
    }
}

/// Whether a file or folder exists at `path` right now. The answer depends on
/// the filesystem at the moment of the call, so nothing is stated of it.
#[verifier::external_body]
fn path_exists(path: &String) -> bool {
    std::path::Path::new(path.as_str()).exists()
}

/// Dedupes and standardizes a batch of raw events into one bulk update.
/// For a rename whose side the platform could not report, the filesystem
/// decides: a path that exists now counts as created, any other as removed.
pub fn deduplicate_and_merge_raw_notifier_events(raw_fs_events: &Vec<FsEvent>) -> (r: Result<
    BulkFilesystemWatcherEvent,
    MergeError,
>)
    ensures
        exists|ex: Seq<Seq<bool>>|
            exists_shape(events_view(raw_fs_events@), ex) && merged_as(
                r,
                events_view(raw_fs_events@),
                ex,
            ),
        no_ambiguous_renames(events_view(raw_fs_events@)) ==> merged_as(
            r,
            events_view(raw_fs_events@),
            all_absent(events_view(raw_fs_events@)),
        ),
{
    let ghost evs = events_view(raw_fs_events@);
    let mut flags: Vec<Vec<bool>> = Vec::new();
    let mut i: usize = 0;
    while i < raw_fs_events.len()
        invariant
            i <= raw_fs_events.len(),
            evs == events_view(raw_fs_events@),
            flags.len() == i,
            forall|k: int| 0 <= k < i ==> (#[trigger] flags@[k])@.len() == evs[k].paths.len(),
            forall|k: int|
                0 <= k < i && evs[k].kind != FsEventKind::Rename(RenameMode::Any) ==> (
                #[trigger] flags@[k])@ == all_absent(evs)[k],
        decreases raw_fs_events.len() - i,
    {
        let ev = &raw_fs_events[i];
        let ambiguous = match ev.kind {
            FsEventKind::Rename(RenameMode::Any) => true,
            _ => false,
        };
        let mut row: Vec<bool> = Vec::new();
        let mut j: usize = 0;
        while j < ev.paths.len()
            invariant
                j <= ev.paths.len(),
                row.len() == j,
                !ambiguous ==> forall|k: int| 0 <= k < j ==> !(#[trigger] row@[k]),
            decreases ev.paths.len() - j,
        {
            if ambiguous {
                row.push(path_exists(&ev.paths[j]));
            } else {
                row.push(false);
            }
            j += 1;
        }
        proof {
            assert(evs[i as int] == ev@);
            if !ambiguous {
                assert(row@ =~= all_absent(evs)[i as int]);
            }
        }
        flags.push(row);
        i += 1;
    }
    proof {
        assert(exists_shape(evs, flags_view(flags@)));
    }
    let r = merge_events(raw_fs_events, &flags);
    proof {
        if no_ambiguous_renames(evs) {
            lemma_merge_reads_existence_only_for_ambiguous_renames(
                evs,
                flags_view(flags@),
                all_absent(evs),
            );
        }
    }
    r
}

/// The views of a sequence of borrowed strings.
pub open spec fn ref_views(s: Seq<&String>) -> Seq<Seq<char>> {
    s.map_values(|p: &String| p@)
}

impl Default for BulkFilesystemWatcherEvent {
    fn default() -> (r: Self)
        ensures
            r.wf(),
            r@.is_empty(),
    {
        let r = BulkFilesystemWatcherEvent {
            added: Vec::new(),
            modified: Vec::new(),
            deleted: Vec::new(),
            moved: Vec::new(),
        };
        proof {
            lemma_empty_path_set(r.added@);
            lemma_empty_path_set(r.modified@);
            lemma_empty_path_set(r.deleted@);
            lemma_empty_pairs(r.moved@);
        }
        r
    }
}

impl BulkFilesystemWatcherEvent {
    /// The paths that were added, then those that were modified.
    pub fn added_or_updated_iter(&self) -> (r: Vec<&String>)
        ensures
            ref_views(r@) == str_views(self.added@) + str_views(self.modified@),
    {
        let mut r: Vec<&String> = Vec::new();
        let mut i: usize = 0;
        while i < self.added.len()
            invariant
                i <= self.added.len(),
                ref_views(r@) == str_views(self.added@).take(i as int),
            decreases self.added.len() - i,
        {
            let ghost old_r = r@;
            let x = &self.added[i];
            r.push(x);
            proof {
                let t = str_views(self.added@).take(i + 1);
                assert(r@ == old_r.push(x));
                assert(ref_views(old_r).len() == old_r.len());
                assert forall|k: int| 0 <= k < i + 1 implies ref_views(r@)[k] == t[k] by {
                    if k < i {
                        assert(ref_views(old_r)[k] == str_views(self.added@).take(i as int)[k]);
                        assert(r@[k] == old_r[k]);
                    } else {
                        assert(r@[k] == x);
                        assert(*x == self.added@[i as int]);
                    }
                }
                assert(ref_views(r@) =~= t);
            }
            i += 1;
        }
        let mut j: usize = 0;
        while j < self.modified.len()
            invariant
                j <= self.modified.len(),
                ref_views(r@) == str_views(self.added@) + str_views(
                    self.modified@,
                ).take(j as int),
            decreases self.modified.len() - j,
        {
            let ghost old_r = r@;
            let x = &self.modified[j];
            r.push(x);
            proof {
                let t = str_views(self.added@) + str_views(self.modified@).take(j + 1);
                let t0 = str_views(self.added@) + str_views(self.modified@).take(j as int);
                assert(r@ == old_r.push(x));
                assert(ref_views(old_r).len() == old_r.len());
                assert forall|k: int| 0 <= k < t.len() implies ref_views(r@)[k] == t[k] by {
                    if k < t.len() - 1 {
                        assert(ref_views(old_r)[k] == t0[k]);
                        assert(r@[k] == old_r[k]);
                    } else {
                        assert(r@[k] == x);
                        assert(*x == self.modified@[j as int]);
                    }
                }
                assert(ref_views(r@) =~= t);
            }
            j += 1;
        }
        proof {
            assert(str_views(self.added@).take(self.added.len() as int) =~= str_views(self.added@));
            assert(str_views(self.modified@).take(self.modified.len() as int) =~= str_views(
                self.modified@,
            ));
        }
        r
    }

    /// The set of paths that were added or modified, each once.
    pub fn added_or_updated_set(&self) -> (r: Vec<String>)
        ensures
            str_views(r@).no_duplicates(),
            str_views(r@).to_set() == self@.added.union(self@.modified),
    {
        let mut r: Vec<String> = Vec::new();
        proof {
            lemma_empty_path_set(r@);
        }
        extend_paths(&mut r, &self.added);
        extend_paths(&mut r, &self.modified);
        proof {
            assert(Set::<Seq<char>>::empty().union(self@.added) =~= self@.added);
        }
        r
    }
}

/// A merged update never lists a path both as added and as modified.
pub proof fn lemma_added_and_modified_disjoint(evs: Seq<FsEventView>, exists: Seq<Seq<bool>>)
    ensures
        merge_result(evs, exists) matches Some(u) ==> u.added.disjoint(u.modified),
{
}

/// A path that is created and then removed within a batch leaves no trace in
/// the update, whether or not it was modified in between.
pub proof fn lemma_create_then_remove_leaves_no_trace(
    evs: Seq<FsEventView>,
    exists: Seq<Seq<bool>>,
    p: Seq<char>,
)
    requires
        exists.len() >= evs.len() + 3,
    ensures
        ({
            let before = merged_update(merge_all(evs, exists));
            let create = FsEventView { kind: FsEventKind::Create, paths: seq![p] };
            let modify = FsEventView { kind: FsEventKind::ModifyData, paths: seq![p] };
            let remove = FsEventView { kind: FsEventKind::Remove, paths: seq![p] };
            let after = merged_update(merge_all(evs.push(create).push(remove), exists));
            let after_modified = merged_update(
                merge_all(evs.push(create).push(modify).push(remove), exists),
            );
            &&& !after.added.contains(p)
            &&& !after.modified.contains(p)
            &&& after.added == before.added.remove(p)
            &&& after.modified == before.modified.remove(p)
            &&& after.deleted == before.deleted
            &&& after.moved == before.moved
            &&& after_modified == after
        }),
{
    let create = FsEventView { kind: FsEventKind::Create, paths: seq![p] };
    let modify = FsEventView { kind: FsEventKind::ModifyData, paths: seq![p] };
    let remove = FsEventView { kind: FsEventKind::Remove, paths: seq![p] };
    let e1 = evs.push(create);
    let e2 = e1.push(remove);
    let f2 = e1.push(modify);
    let f3 = f2.push(remove);
    assert(e2.drop_last() =~= e1);
    assert(e1.drop_last() =~= evs);
    assert(f3.drop_last() =~= f2);
    assert(f2.drop_last() =~= e1);
    let s0 = merge_all(evs, exists);
    assert(seq![p].to_set() =~= set![p]) by {
        assert(seq![p][0] == p);
    }
    let s1 = merge_all(e1, exists);
    assert(s1 == MergeState { created: s0.created.union(set![p]), ..s0 });
    assert(seq![p].drop_last() =~= Seq::<Seq<char>>::empty());
    assert(seq![p].last() == p);
    assert(remove_all(s1, seq![p].drop_last()) == s1);
    let s2 = merge_all(e2, exists);
    assert(s2 == remove_one(s1, p));
    assert(s2.created =~= s0.created.remove(p));
    assert(s2.modified =~= s0.modified.remove(p));
    let t2 = merge_all(f2, exists);
    assert(t2 == MergeState { modified: s1.modified.union(set![p]), ..s1 });
    assert(remove_all(t2, seq![p].drop_last()) == t2);
    let t3 = merge_all(f3, exists);
    assert(t3 == remove_one(t2, p));
    assert(t3.created =~= s2.created);
    assert(t3.modified =~= s2.modified);
    assert(t3 =~= s2);
    assert(merged_update(s2).added =~= merged_update(s0).added.remove(p));
    assert(merged_update(s2).modified =~= merged_update(s0).modified.remove(p));
}

/// Once a path that was not created in the batch is removed, only its
/// removal remains: it is no longer modified or a rename target, and the
/// deletion names the path it was renamed from, if it was.
pub proof fn lemma_remove_keeps_only_the_removal(
    evs: Seq<FsEventView>,
    exists: Seq<Seq<bool>>,
    p: Seq<char>,
)
    requires
        exists.len() >= evs.len() + 1,
        !merge_all(evs, exists).created.contains(p),
    ensures
        ({
            let before = merge_all(evs, exists);
            let after = merged_update(
                merge_all(evs.push(FsEventView { kind: FsEventKind::Remove, paths: seq![p] }), exists),
            );
            &&& !after.modified.contains(p)
            &&& !after.moved.contains_key(p)
            &&& after.deleted.contains(
                if before.moved.contains_key(p) {
                    before.moved[p]
                } else {
                    p
                },
            )
        }),
{
    let remove = FsEventView { kind: FsEventKind::Remove, paths: seq![p] };
    let e1 = evs.push(remove);
    assert(e1.drop_last() =~= evs);
    assert(seq![p].drop_last() =~= Seq::<Seq<char>>::empty());
    assert(seq![p].last() == p);
    let s0 = merge_all(evs, exists);
    assert(remove_all(s0, seq![p].drop_last()) == s0);
    assert(merge_all(e1, exists) == remove_one(s0, p));
}

/// Renames in sequence are squashed: renaming `a` to `b` and then `b` to
/// `c` leaves one rename from `a` to `c`, where `a` was not itself a rename
/// target before.
pub proof fn lemma_sequential_renames_squash(
    evs: Seq<FsEventView>,
    exists: Seq<Seq<bool>>,
    a: Seq<char>,
    b: Seq<char>,
    c: Seq<char>,
)
    requires
        exists.len() >= evs.len() + 2,
        !merge_all(evs, exists).moved.contains_key(a),
        a != b,
        b != c,
        a != c,
    ensures
        ({
            let before = merge_all(evs, exists);
            let after = merge_all(
                evs.push(
                    FsEventView { kind: FsEventKind::Rename(RenameMode::Both), paths: seq![a, b] },
                ).push(
                    FsEventView { kind: FsEventKind::Rename(RenameMode::Both), paths: seq![b, c] },
                ),
                exists,
            );
            &&& after.moved == before.moved.remove(b).insert(c, a)
            &&& after.moved[c] == a
            &&& !after.moved.contains_key(b)
        }),
{
    let r1 = FsEventView { kind: FsEventKind::Rename(RenameMode::Both), paths: seq![a, b] };
    let r2 = FsEventView { kind: FsEventKind::Rename(RenameMode::Both), paths: seq![b, c] };
    let e1 = evs.push(r1);
    let e2 = e1.push(r2);
    assert(e2.drop_last() =~= e1);
    assert(e1.drop_last() =~= evs);
    let s0 = merge_all(evs, exists);
    let s1 = merge_all(e1, exists);
    assert(s1.moved == s0.moved.remove(a).insert(b, a));
    let s2 = merge_all(e2, exists);
    assert(s2.moved == s1.moved.remove(b).insert(c, a));
    assert(s2.moved =~= s0.moved.remove(b).insert(c, a));
}

/// A rename reported in two halves (old name, then new name) has the same
/// effect on the update as one reported whole.
pub proof fn lemma_split_rename_matches_whole_rename(
    evs: Seq<FsEventView>,
    exists: Seq<Seq<bool>>,
    a: Seq<char>,
    b: Seq<char>,
)
    requires
        exists.len() >= evs.len() + 2,
    ensures
        merged_update(
            merge_all(
                evs.push(
                    FsEventView { kind: FsEventKind::Rename(RenameMode::From), paths: seq![a] },
                ).push(FsEventView { kind: FsEventKind::Rename(RenameMode::To), paths: seq![b] }),
                exists,
            ),
        ) == merged_update(
            merge_all(
                evs.push(
                    FsEventView { kind: FsEventKind::Rename(RenameMode::Both), paths: seq![a, b] },
                ),
                exists,
            ),
        ),
{
    let from = FsEventView { kind: FsEventKind::Rename(RenameMode::From), paths: seq![a] };
    let to = FsEventView { kind: FsEventKind::Rename(RenameMode::To), paths: seq![b] };
    let both = FsEventView { kind: FsEventKind::Rename(RenameMode::Both), paths: seq![a, b] };
    let e1 = evs.push(from);
    let e2 = e1.push(to);
    let f1 = evs.push(both);
    assert(e2.drop_last() =~= e1);
    assert(e1.drop_last() =~= evs);
    assert(f1.drop_last() =~= evs);
    let s0 = merge_all(evs, exists);
    assert(seq![a][0] == a);
    assert(seq![b][0] == b);
    assert(seq![a, b][0] == a && seq![a, b][1] == b);
    let s1 = merge_all(e1, exists);
    assert(s1 == MergeState { rename_from: Some(a), ..s0 });
    assert(merge_all(e2, exists) == rename(MergeState { rename_from: None, ..s1 }, a, b));
    assert(merge_all(f1, exists) == rename(s0, a, b));
    assert(merge_all(e2, exists).moved =~= merge_all(f1, exists).moved);
    assert(merged_update(merge_all(e2, exists)) =~= merged_update(merge_all(f1, exists)));
}

/// The events of `evs` that merging does not ignore, in order.
pub open spec fn relevant_events(evs: Seq<FsEventView>) -> Seq<FsEventView>
    decreases evs.len(),
{
    if evs.len() == 0 {
        Seq::empty()
    } else {
        let r = relevant_events(evs.drop_last());
        if evs.last().kind == FsEventKind::Other {
            r
        } else {
            r.push(evs.last())
        }
    }
}

/// The existence information (`exists[i]` for `evs[i]`) of the events that
/// merging does not ignore, in order.
pub open spec fn relevant_flags(evs: Seq<FsEventView>, exists: Seq<Seq<bool>>) -> Seq<Seq<bool>>
    decreases evs.len(),
{
    if evs.len() == 0 {
        Seq::empty()
    } else {
        let r = relevant_flags(evs.drop_last(), exists);
        if evs.last().kind == FsEventKind::Other {
            r
        } else {
            r.push(exists[evs.len() - 1])
        }
    }
}

/// Ignored events (access, metadata and other changes) do not take part in a
/// merge: merging a batch gives what merging only its other events gives.
pub proof fn lemma_ignored_events_do_not_change_the_merge(
    evs: Seq<FsEventView>,
    exists: Seq<Seq<bool>>,
)
    requires
        exists.len() >= evs.len(),
    ensures
        relevant_flags(evs, exists).len() == relevant_events(evs).len(),
        merge_all(evs, exists) == merge_all(relevant_events(evs), relevant_flags(evs, exists)),
        merge_result(evs, exists) == merge_result(
            relevant_events(evs),
            relevant_flags(evs, exists),
        ),
    decreases evs.len(),
{
    if evs.len() > 0 {
        let init = evs.drop_last();
        let e = evs.last();
        lemma_ignored_events_do_not_change_the_merge(init, exists);
        let r = relevant_events(init);
        let f = relevant_flags(init, exists);
        if e.kind != FsEventKind::Other {
            let x = exists[evs.len() - 1];
            assert(r.push(e).drop_last() =~= r);
            assert(f.push(x).take(r.len() as int) =~= f);
            lemma_merge_prefix_flags(r, f.push(x));
        }
    }
}

/// Inserting ignored events anywhere in a batch, with any existence
/// information for them, leaves the merge as it was: two batches with the
/// same other events and the same existence information for those merge alike.
pub proof fn lemma_inserted_ignored_events_keep_the_merge(
    evs1: Seq<FsEventView>,
    exists1: Seq<Seq<bool>>,
    evs2: Seq<FsEventView>,
    exists2: Seq<Seq<bool>>,
)
    requires
        exists1.len() >= evs1.len(),
        exists2.len() >= evs2.len(),
        relevant_events(evs1) == relevant_events(evs2),
        relevant_flags(evs1, exists1) == relevant_flags(evs2, exists2),
    ensures
        merge_all(evs1, exists1) == merge_all(evs2, exists2),
        merge_result(evs1, exists1) == merge_result(evs2, exists2),
{
    lemma_ignored_events_do_not_change_the_merge(evs1, exists1);
    lemma_ignored_events_do_not_change_the_merge(evs2, exists2);
}

/// A merge reports nothing exactly when nothing is left: it gives `None`
/// only where no path is added, modified, deleted or renamed, and otherwise
/// an update in which at least one of these is non-empty.
pub proof fn lemma_merge_is_none_exactly_when_nothing_is_left(
    evs: Seq<FsEventView>,
    exists: Seq<Seq<bool>>,
)
    ensures
        ({
            let s = merge_all(evs, exists);
            let nothing_left = s.created.is_empty() && s.modified.difference(s.created).is_empty()
                && s.deleted.is_empty() && s.moved.dom().is_empty();
            &&& (merge_result(evs, exists) is None) == nothing_left
            &&& merge_result(evs, exists) matches Some(u) ==> u.added == s.created
                && u.modified == s.modified.difference(s.created) && u.deleted == s.deleted
                && u.moved == s.moved
        }),
{
    let s = merge_all(evs, exists);
    let u = merged_update(s);
    if s.moved.dom().is_empty() {
        assert(s.moved =~= Map::<Seq<char>, Seq<char>>::empty());
    }
    if u.moved == Map::<Seq<char>, Seq<char>>::empty() {
        assert(s.moved.dom() =~= Set::<Seq<char>>::empty());
    }
}

/// Every path of a creation is reported as added (and not as modified),
/// whatever came before it in the batch.
pub proof fn lemma_created_paths_are_added(
    evs: Seq<FsEventView>,
    exists: Seq<Seq<bool>>,
    ps: Seq<Seq<char>>,
)
    requires
        exists.len() >= evs.len() + 1,
    ensures
        forall|p: Seq<char>|
            ps.contains(p) ==> (merge_result(
                evs.push(FsEventView { kind: FsEventKind::Create, paths: ps }),
                exists,
            ) matches Some(u) && u.added.contains(p) && !u.modified.contains(p)),
{
    let e1 = evs.push(FsEventView { kind: FsEventKind::Create, paths: ps });
    assert(e1.drop_last() =~= evs);
    let s0 = merge_all(evs, exists);
    let s1 = merge_all(e1, exists);
    assert(s1.created == s0.created.union(ps.to_set()));
    assert forall|p: Seq<char>| ps.contains(p) implies (merge_result(e1, exists) matches Some(u)
        && u.added.contains(p) && !u.modified.contains(p)) by {
        assert(ps.to_set().contains(p));
        assert(s1.created.contains(p));
        assert(!(s1.created =~= Set::<Seq<char>>::empty()));
    }
}

/// Every path of a content modification is reported, as modified, or as
/// added where it was created in the batch; so such an update is never
/// dropped.
pub proof fn lemma_modified_paths_are_reported(
    evs: Seq<FsEventView>,
    exists: Seq<Seq<bool>>,
    ps: Seq<Seq<char>>,
)
    requires
        exists.len() >= evs.len() + 1,
    ensures
        forall|p: Seq<char>|
            ps.contains(p) ==> (merge_result(
                evs.push(FsEventView { kind: FsEventKind::ModifyData, paths: ps }),
                exists,
            ) matches Some(u) && (u.added.contains(p) || u.modified.contains(p))),
        forall|p: Seq<char>|
            ps.contains(p) ==> (merge_result(
                evs.push(FsEventView { kind: FsEventKind::ModifyAny, paths: ps }),
                exists,
            ) matches Some(u) && (u.added.contains(p) || u.modified.contains(p))),
{
    let e1 = evs.push(FsEventView { kind: FsEventKind::ModifyData, paths: ps });
    let e2 = evs.push(FsEventView { kind: FsEventKind::ModifyAny, paths: ps });
    assert(e1.drop_last() =~= evs);
    assert(e2.drop_last() =~= evs);
    let s0 = merge_all(evs, exists);
    let s1 = merge_all(e1, exists);
    let s2 = merge_all(e2, exists);
    assert(s1.modified == s0.modified.union(ps.to_set()));
    assert(s2.modified == s0.modified.union(ps.to_set()));
    assert forall|p: Seq<char>| ps.contains(p) implies (merge_result(e1, exists) matches Some(u)
        && (u.added.contains(p) || u.modified.contains(p))) by {
        assert(ps.to_set().contains(p));
        if s1.created.contains(p) {
            assert(!(s1.created =~= Set::<Seq<char>>::empty()));
        } else {
            assert(s1.modified.difference(s1.created).contains(p));
            assert(!(s1.modified.difference(s1.created) =~= Set::<Seq<char>>::empty()));
        }
    }
    assert forall|p: Seq<char>| ps.contains(p) implies (merge_result(e2, exists) matches Some(u)
        && (u.added.contains(p) || u.modified.contains(p))) by {
        assert(ps.to_set().contains(p));
        if s2.created.contains(p) {
            assert(!(s2.created =~= Set::<Seq<char>>::empty()));
        } else {
            assert(s2.modified.difference(s2.created).contains(p));
            assert(!(s2.modified.difference(s2.created) =~= Set::<Seq<char>>::empty()));
        }
    }
}

/// A batch that only modifies the contents of the paths `ps` reports
/// exactly those paths as modified.
pub proof fn lemma_lone_modification(ps: Seq<Seq<char>>, exists: Seq<Seq<bool>>)
    requires
        ps.len() > 0,
        exists.len() >= 1,
    ensures
        merge_result(seq![FsEventView { kind: FsEventKind::ModifyData, paths: ps }], exists)
            == Some(
            BulkEventView {
                added: Set::empty(),
                modified: ps.to_set(),
                deleted: Set::empty(),
                moved: Map::empty(),
            },
        ),
{
    let e = FsEventView { kind: FsEventKind::ModifyData, paths: ps };
    let evs = seq![e];
    assert(evs.drop_last() =~= Seq::<FsEventView>::empty());
    assert(evs.last() == e);
    assert(merge_all(evs.drop_last(), exists) == initial_merge_state());
    let s = merge_all(evs, exists);
    assert(s.modified =~= ps.to_set());
    assert(ps.to_set().contains(ps[0]));
    assert(merged_update(s).modified =~= ps.to_set());
    assert(merged_update(s) =~= BulkEventView {
        added: Set::empty(),
        modified: ps.to_set(),
        deleted: Set::empty(),
        moved: Map::empty(),
    });
}

/// What removing each path of `ps` in turn does: the removed paths are no
/// longer created or modified, nor rename targets unless they were created
/// in the batch; each of them that was neither created nor a rename target
/// is deleted; and nothing that was deleted is forgotten.
proof fn lemma_remove_all_facts(s: MergeState, ps: Seq<Seq<char>>)
    ensures
        ({
            let r = remove_all(s, ps);
            &&& forall|p: Seq<char>|
                ps.contains(p) ==> !r.created.contains(p) && !r.modified.contains(p)
            &&& forall|p: Seq<char>|
                ps.contains(p) && !s.created.contains(p) ==> !r.moved.contains_key(p)
            &&& forall|p: Seq<char>|
                ps.contains(p) && !s.created.contains(p) && !s.moved.contains_key(p)
                    ==> r.deleted.contains(p)
            &&& forall|p: Seq<char>| s.deleted.contains(p) ==> r.deleted.contains(p)
            &&& forall|p: Seq<char>| r.created.contains(p) ==> s.created.contains(p)
            &&& forall|p: Seq<char>| r.moved.contains_key(p) ==> s.moved.contains_key(p)
        }),
    decreases ps.len(),
{
    if ps.len() > 0 {
        let init = ps.drop_last();
        let q = ps.last();
        lemma_remove_all_facts(s, init);
        let t = remove_all(s, init);
        let r = remove_all(s, ps);
        assert(r == remove_one(t, q));
        assert forall|p: Seq<char>| ps.contains(p) implies !r.created.contains(p)
            && !r.modified.contains(p) by {
            let k = choose|k: int| 0 <= k < ps.len() && ps[k] == p;
            if k < ps.len() - 1 {
                assert(init[k] == p);
                assert(init.contains(p));
            }
        }
        assert forall|p: Seq<char>| ps.contains(p) && !s.created.contains(
            p,
        ) implies !r.moved.contains_key(p) by {
            let k = choose|k: int| 0 <= k < ps.len() && ps[k] == p;
            if k < ps.len() - 1 {
                assert(init[k] == p);
                assert(init.contains(p));
            } else {
                assert(!t.created.contains(p));
            }
        }
        assert forall|p: Seq<char>|
            ps.contains(p) && !s.created.contains(p) && !s.moved.contains_key(
                p,
            ) implies r.deleted.contains(p) by {
            let k = choose|k: int| 0 <= k < ps.len() && ps[k] == p;
            if k < ps.len() - 1 {
                assert(init[k] == p);
                assert(init.contains(p));
            } else {
                assert(p == q);
                assert(!t.created.contains(p));
                assert(!t.moved.contains_key(p));
            }
        }
    }
}

/// Removing the paths `ps` in a batch: afterwards none of them is created
/// or modified, nor a rename target unless it was created in the batch; each
/// that was neither created in the batch nor a rename target is reported
/// deleted; and earlier deletions stay.
pub proof fn lemma_removed_paths_are_reported(
    evs: Seq<FsEventView>,
    exists: Seq<Seq<bool>>,
    ps: Seq<Seq<char>>,
)
    requires
        exists.len() >= evs.len() + 1,
    ensures
        ({
            let before = merge_all(evs, exists);
            let after = merge_all(
                evs.push(FsEventView { kind: FsEventKind::Remove, paths: ps }),
                exists,
            );
            &&& forall|p: Seq<char>|
                ps.contains(p) ==> !after.created.contains(p) && !after.modified.contains(p)
            &&& forall|p: Seq<char>|
                ps.contains(p) && !before.created.contains(p) ==> !after.moved.contains_key(p)
            &&& forall|p: Seq<char>|
                ps.contains(p) && !before.created.contains(p) && !before.moved.contains_key(p)
                    ==> after.deleted.contains(p)
            &&& forall|p: Seq<char>| before.deleted.contains(p) ==> after.deleted.contains(p)
        }),
{
    let e1 = evs.push(FsEventView { kind: FsEventKind::Remove, paths: ps });
    assert(e1.drop_last() =~= evs);
    lemma_remove_all_facts(merge_all(evs, exists), ps);
}

/// From the initial state, removing `ps` deletes exactly those paths.
proof fn lemma_remove_all_from_initial(ps: Seq<Seq<char>>)
    ensures
        remove_all(initial_merge_state(), ps) == (MergeState {
            deleted: ps.to_set(),
            ..initial_merge_state()
        }),
    decreases ps.len(),
{
    if ps.len() > 0 {
        let init = ps.drop_last();
        lemma_remove_all_from_initial(init);
        let t = remove_all(initial_merge_state(), init);
        let r = remove_one(t, ps.last());
        assert(ps =~= init.push(ps.last()));
        assert(ps.to_set() =~= init.to_set().insert(ps.last())) by {
            assert forall|x: Seq<char>| ps.contains(x) <==> init.to_set().insert(
                ps.last(),
            ).contains(x) by {
                if ps.contains(x) {
                    let k = choose|k: int| 0 <= k < ps.len() && ps[k] == x;
                    if k < ps.len() - 1 {
                        assert(init[k] == x);
                    }
                }
                if init.contains(x) {
                    let k = choose|k: int| 0 <= k < init.len() && init[k] == x;
                    assert(ps[k] == x);
                }
                if x == ps.last() {
                    assert(ps[ps.len() - 1] == x);
                }
            }
        }
        assert(r.modified =~= Set::<Seq<char>>::empty());
        assert(r.moved =~= Map::<Seq<char>, Seq<char>>::empty());
        assert(r =~= MergeState { deleted: ps.to_set(), ..initial_merge_state() });
        assert(remove_all(initial_merge_state(), ps) == r);
    } else {
        assert(ps.to_set() =~= Set::<Seq<char>>::empty());
        assert(remove_all(initial_merge_state(), ps) =~= MergeState {
            deleted: ps.to_set(),
            ..initial_merge_state()
        });
    }
}

/// A batch that only removes the paths `ps` reports exactly those paths as
/// deleted.
pub proof fn lemma_lone_removal(ps: Seq<Seq<char>>, exists: Seq<Seq<bool>>)
    requires
        ps.len() > 0,
        exists.len() >= 1,
    ensures
        merge_result(seq![FsEventView { kind: FsEventKind::Remove, paths: ps }], exists) == Some(
            BulkEventView {
                added: Set::empty(),
                modified: Set::empty(),
                deleted: ps.to_set(),
                moved: Map::empty(),
            },
        ),
{
    let e = FsEventView { kind: FsEventKind::Remove, paths: ps };
    let evs = seq![e];
    assert(evs.drop_last() =~= Seq::<FsEventView>::empty());
    assert(evs.last() == e);
    lemma_remove_all_from_initial(ps);
    assert(merge_all(evs.drop_last(), exists) == initial_merge_state());
    let s = merge_all(evs, exists);
    assert(ps.to_set().contains(ps[0]));
    assert(merged_update(s).modified =~= Set::<Seq<char>>::empty());
    assert(merged_update(s) =~= BulkEventView {
        added: Set::empty(),
        modified: Set::empty(),
        deleted: ps.to_set(),
        moved: Map::empty(),
    });
}

} // verus!
