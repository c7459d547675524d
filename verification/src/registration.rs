//! Bookkeeping of watch registrations.
//!
//! Every register request counts one more reference to a path and to the
//! pair of path and recursive mode; every unregister request drops one
//! reference to the path, and once none is left, the path and all its
//! registrations are forgotten. Duplicate registrations and unregistrations
//! of paths that are not registered are counted for diagnostics.

use vstd::prelude::*;

use crate::collections::{
    assoc_map, keys_distinct, lemma_assoc_index, lemma_assoc_push, lemma_assoc_remove,
    lemma_assoc_update,
};

verus! {

/// Whether a watch covers only the directory itself or also everything below it.
#[derive(Clone, Copy, PartialEq, Eq, Debug, Hash, Structural)]
pub enum RecursiveMode {
    Recursive,
    NonRecursive,
}

/// A registration: a normalized path together with its recursive mode.
#[derive(Debug)]
pub struct RegistrationKey {
    pub path: String,
    pub recursive_mode: RecursiveMode,
}

/// The counters and reference counts themselves; `RegistrationDiagnostics`
/// keeps them consistent.
#[derive(Debug)]
struct RegistrationTable {
    total_register_requests: usize,
    total_unregister_requests: usize,
    duplicate_register_requests: usize,
    unmatched_unregister_requests: usize,
    /// Number of live registrations of each normalized path.
    path_refcounts: Vec<(String, usize)>,
    /// Number of register requests of each registration still alive.
    registrations: Vec<(RegistrationKey, usize)>,
}

/// Counters and reference counts of watch registrations.
#[derive(Debug)]
pub struct RegistrationDiagnostics {
    table: RegistrationTable,
}

/// What a register request found.
#[derive(Debug)]
pub struct RegisterStats {
    pub normalized_path: String,
    pub refcount_for_registration: usize,
    pub duplicate_registration: bool,
}

/// What an unregister request found.
#[derive(Debug)]
pub struct UnregisterStats {
    pub normalized_path: String,
    pub refcount_for_path_after_remove: usize,
    pub unmatched_unregister: bool,
}

/// The key of a registration, as a value.
pub type RegistrationKeyView = (Seq<char>, RecursiveMode);

pub open spec fn refcount_entry_view(e: (String, usize)) -> (Seq<char>, usize) {
    (e.0@, e.1)
}

pub open spec fn registration_entry_view(e: (RegistrationKey, usize)) -> (RegistrationKeyView, usize) {
    ((e.0.path@, e.0.recursive_mode), e.1)
}

pub open spec fn refcount_pairs(s: Seq<(String, usize)>) -> Seq<(Seq<char>, usize)> {
    s.map_values(|e: (String, usize)| refcount_entry_view(e))
}

pub open spec fn registration_pairs(s: Seq<(RegistrationKey, usize)>) -> Seq<
    (RegistrationKeyView, usize),
> {
    s.map_values(|e: (RegistrationKey, usize)| registration_entry_view(e))
}

/// The mathematical content of `RegistrationDiagnostics`.
#[verifier::ext_equal]
pub struct DiagnosticsView {
    pub total_register_requests: nat,
    pub total_unregister_requests: nat,
    pub duplicate_register_requests: nat,
    pub unmatched_unregister_requests: nat,
    pub path_refcounts: Map<Seq<char>, usize>,
    pub registrations: Map<RegistrationKeyView, usize>,
}

impl RegistrationTable {
    spec fn view(&self) -> DiagnosticsView {
        DiagnosticsView {
            total_register_requests: self.total_register_requests as nat,
            total_unregister_requests: self.total_unregister_requests as nat,
            duplicate_register_requests: self.duplicate_register_requests as nat,
            unmatched_unregister_requests: self.unmatched_unregister_requests as nat,
            path_refcounts: assoc_map(refcount_pairs(self.path_refcounts@)),
            registrations: assoc_map(registration_pairs(self.registrations@)),
        }
    }
}

/// The count that `m` holds for `k`, 0 where it holds none.
pub open spec fn count_of<K>(m: Map<K, usize>, k: K) -> nat {
    if m.contains_key(k) {
        m[k] as nat
    } else {
        0
    }
}

/// All registrations whose path is not `p`.
pub open spec fn other_paths(p: Seq<char>) -> Set<RegistrationKeyView> {
    Set::new(|k: RegistrationKeyView| k.0 != p)
}

impl DiagnosticsView {
    /// Every live path has a positive reference count, every registration
    /// belongs to a live path, no count exceeds the number of register
    /// requests, and the diagnostic counters stay within their totals.
    pub open spec fn consistent(self) -> bool {
        &&& forall|p: Seq<char>| #[trigger]
            self.path_refcounts.contains_key(p) ==> 0 < self.path_refcounts[p]
                <= self.total_register_requests
        &&& forall|k: RegistrationKeyView| #[trigger]
            self.registrations.contains_key(k) ==> {
                &&& 0 < self.registrations[k] <= self.total_register_requests
                &&& self.path_refcounts.contains_key(k.0)
            }
        &&& self.duplicate_register_requests <= self.total_register_requests
        &&& self.unmatched_unregister_requests <= self.total_unregister_requests
    }

    /// The effect of registering path `p` with mode `mode`.
    pub open spec fn after_register(self, p: Seq<char>, mode: RecursiveMode) -> DiagnosticsView {
        let previous = count_of(self.registrations, (p, mode));
        DiagnosticsView {
            total_register_requests: self.total_register_requests + 1,
            duplicate_register_requests: self.duplicate_register_requests + if previous > 0 {
                1nat
            } else {
                0nat
            },
            path_refcounts: self.path_refcounts.insert(
                p,
                (count_of(self.path_refcounts, p) + 1) as usize,
            ),
            registrations: self.registrations.insert((p, mode), (previous + 1) as usize),
            ..self
        }
    }

    /// The effect of unregistering path `p`.
    pub open spec fn after_unregister(self, p: Seq<char>) -> DiagnosticsView {
        let counted = DiagnosticsView {
            total_unregister_requests: self.total_unregister_requests + 1,
            ..self
        };
        if !self.path_refcounts.contains_key(p) {
            DiagnosticsView {
                unmatched_unregister_requests: self.unmatched_unregister_requests + 1,
                ..counted
            }
        } else if self.path_refcounts[p] > 1 {
            DiagnosticsView {
                path_refcounts: self.path_refcounts.insert(p, (self.path_refcounts[p] - 1) as usize),
                ..counted
            }
        } else {
            DiagnosticsView {
                path_refcounts: self.path_refcounts.remove(p),
                registrations: self.registrations.restrict(other_paths(p)),
                ..counted
            }
        }
    }
}

impl RegistrationTable {
    spec fn wf(&self) -> bool {
        &&& keys_distinct(refcount_pairs(self.path_refcounts@))
        &&& keys_distinct(registration_pairs(self.registrations@))
        &&& self@.consistent()
    }

    fn new() -> (r: Self)
        ensures
            r.wf(),
            r@.total_register_requests == 0,
            r@.total_unregister_requests == 0,
            r@.duplicate_register_requests == 0,
            r@.unmatched_unregister_requests == 0,
            r@.path_refcounts == Map::<Seq<char>, usize>::empty(),
            r@.registrations == Map::<RegistrationKeyView, usize>::empty(),
    {
        let r = RegistrationTable {
            total_register_requests: 0,
            total_unregister_requests: 0,
            duplicate_register_requests: 0,
            unmatched_unregister_requests: 0,
            path_refcounts: Vec::new(),
            registrations: Vec::new(),
        };
        assert(r@.path_refcounts =~= Map::<Seq<char>, usize>::empty());
        assert(r@.registrations =~= Map::<RegistrationKeyView, usize>::empty());
        r
    }
}

fn find_refcount(v: &Vec<(String, usize)>, p: &String) -> (r: Option<usize>)
    ensures
        match r {
            Some(i) => i < v.len() && refcount_pairs(v@)[i as int].0 == p@,
            None => !assoc_map(refcount_pairs(v@)).contains_key(p@),
        },
{
    let mut i: usize = 0;
    while i < v.len()
        invariant
            i <= v.len(),
            forall|j: int| 0 <= j < i ==> refcount_pairs(v@)[j].0 != p@,
        decreases v.len() - i,
    {
        if v[i].0 == *p {
            return Some(i);
        }
        i += 1;
    }
    proof {
        if assoc_map(refcount_pairs(v@)).contains_key(p@) {
            let j = choose|j: int|
                0 <= j < refcount_pairs(v@).len() && #[trigger] refcount_pairs(v@)[j].0 == p@;
            assert(refcount_pairs(v@)[j].0 != p@);
        }
    }
    None
}

fn find_registration(v: &Vec<(RegistrationKey, usize)>, p: &String, mode: RecursiveMode) -> (r:
    Option<usize>)
    ensures
        match r {
            Some(i) => i < v.len() && registration_pairs(v@)[i as int].0 == (p@, mode),
            None => !assoc_map(registration_pairs(v@)).contains_key((p@, mode)),
        },
{
    let mut i: usize = 0;
    while i < v.len()
        invariant
            i <= v.len(),
            forall|j: int| 0 <= j < i ==> registration_pairs(v@)[j].0 != (p@, mode),
        decreases v.len() - i,
    {
        if v[i].0.path == *p && v[i].0.recursive_mode == mode {
            return Some(i);
        }
        i += 1;
    }
    proof {
        if assoc_map(registration_pairs(v@)).contains_key((p@, mode)) {
            let j = choose|j: int|
                0 <= j < registration_pairs(v@).len() && #[trigger] registration_pairs(v@)[j].0
                    == (p@, mode);
            assert(registration_pairs(v@)[j].0 != (p@, mode));
        }
    }
    None
}

impl RegistrationTable {
    fn record_register(&mut self, normalized_path: &str, recursive_mode: RecursiveMode) -> (stats:
        RegisterStats)
        requires
            old(self).wf(),
            old(self).total_register_requests < usize::MAX,
        ensures
            final(self).wf(),
            final(self)@ == old(self)@.after_register(normalized_path@, recursive_mode),
            stats.normalized_path@ == normalized_path@,
            stats.refcount_for_registration == count_of(
                old(self)@.registrations,
                (normalized_path@, recursive_mode),
            ) + 1,
            stats.duplicate_registration == (stats.refcount_for_registration > 1),
            final(self)@.duplicate_register_requests == old(self)@.duplicate_register_requests + if stats.duplicate_registration {
                1nat
            } else {
                0nat
            },
            final(self)@.registrations[(normalized_path@, recursive_mode)]
                == stats.refcount_for_registration,
    {
        let ghost d = self@;
        let ghost p = normalized_path@;
        self.total_register_requests += 1;
        let path = normalized_path.to_owned();
        match find_refcount(&self.path_refcounts, &path) {
            Some(i) => {
                let ghost before = self.path_refcounts@;
                let c: usize = self.path_refcounts[i].1;
                proof {
                    lemma_assoc_index(refcount_pairs(before), i as int);
                    assert(refcount_pairs(before)[i as int] == refcount_entry_view(before[i as int]));
                    assert(d.path_refcounts.contains_key(p));
                    assert(c <= d.total_register_requests);
                }
                self.path_refcounts.set(i, (path.clone(), c + 1));
                proof {
                    assert(refcount_pairs(self.path_refcounts@) =~= refcount_pairs(before).update(
                        i as int,
                        (refcount_pairs(before)[i as int].0, (c + 1) as usize),
                    ));
                    lemma_assoc_update(refcount_pairs(before), i as int, (c + 1) as usize);
                }
            },
            None => {
                let ghost before = self.path_refcounts@;
                self.path_refcounts.push((path.clone(), 1));
                proof {
                    assert(refcount_pairs(self.path_refcounts@) =~= refcount_pairs(before).push(
                        (p, 1usize),
                    ));
                    lemma_assoc_push(refcount_pairs(before), p, 1usize);
                }
            },
        }
        let refcount: usize = match find_registration(&self.registrations, &path, recursive_mode) {
            Some(i) => {
                let ghost before = self.registrations@;
                let c: usize = self.registrations[i].1;
                proof {
                    lemma_assoc_index(registration_pairs(before), i as int);
                    assert(registration_pairs(before)[i as int] == registration_entry_view(
                        before[i as int],
                    ));
                    assert(d.registrations.contains_key((p, recursive_mode)));
                    assert(c <= d.total_register_requests);
                }
                self.registrations.set(
                    i,
                    (RegistrationKey { path: path.clone(), recursive_mode }, c + 1),
                );
                proof {
                    assert(registration_pairs(self.registrations@) =~= registration_pairs(
                        before,
                    ).update(i as int, (registration_pairs(before)[i as int].0, (c + 1) as usize)));
                    lemma_assoc_update(registration_pairs(before), i as int, (c + 1) as usize);
                }
                c + 1
            },
            None => {
                let ghost before = self.registrations@;
                self.registrations.push((RegistrationKey { path: path.clone(), recursive_mode }, 1));
                proof {
                    assert(registration_pairs(self.registrations@) =~= registration_pairs(
                        before,
                    ).push(((p, recursive_mode), 1usize)));
                    lemma_assoc_push(registration_pairs(before), (p, recursive_mode), 1usize);
                }
                1
            },
        };
        let duplicate_registration = refcount > 1;
        if duplicate_registration {
            self.duplicate_register_requests += 1;
        }
        proof {
            let e = d.after_register(p, recursive_mode);
            assert(self@.path_refcounts =~= e.path_refcounts);
            assert(self@.registrations =~= e.registrations);
            assert(self@ =~= e);
        }
        RegisterStats {
            normalized_path: path,
            refcount_for_registration: refcount,
            duplicate_registration,
        }
    }
}

/// The registrations of `v` whose path is not `p`.
fn registrations_without_path(v: &Vec<(RegistrationKey, usize)>, p: &String) -> (r: Vec<
    (RegistrationKey, usize),
>)
    requires
        keys_distinct(registration_pairs(v@)),
    ensures
        keys_distinct(registration_pairs(r@)),
        assoc_map(registration_pairs(r@)) == assoc_map(registration_pairs(v@)).restrict(
            other_paths(p@),
        ),
{
    let ghost all = registration_pairs(v@);
    let mut r: Vec<(RegistrationKey, usize)> = Vec::new();
    proof {
        assert(assoc_map(registration_pairs(r@)) =~= assoc_map(all.take(0)).restrict(
            other_paths(p@),
        ));
    }
    let mut j: usize = 0;
    while j < v.len()
        invariant
            j <= v.len(),
            all == registration_pairs(v@),
            keys_distinct(all),
            keys_distinct(registration_pairs(r@)),
            assoc_map(registration_pairs(r@)) == assoc_map(all.take(j as int)).restrict(
                other_paths(p@),
            ),
        decreases v.len() - j,
    {
        let ghost prefix = all.take(j as int);
        let ghost entry = all[j as int];
        proof {
            assert(keys_distinct(prefix));
            assert(!assoc_map(prefix).contains_key(entry.0)) by {
                if assoc_map(prefix).contains_key(entry.0) {
                    let k = choose|k: int| 0 <= k < prefix.len() && #[trigger] prefix[k].0 == entry.0;
                    assert(all[k].0 == all[j as int].0);
                }
            }
            assert(all.take(j + 1) =~= prefix.push(entry));
            lemma_assoc_push(prefix, entry.0, entry.1);
        }
        let keep = !(v[j].0.path == *p);
        if keep {
            let ghost before = r@;
            let key = RegistrationKey {
                path: v[j].0.path.clone(),
                recursive_mode: v[j].0.recursive_mode,
            };
            r.push((key, v[j].1));
            proof {
                assert(registration_entry_view(v@[j as int]) == entry);
                assert(registration_pairs(r@) =~= registration_pairs(before).push(entry));
                assert(!assoc_map(registration_pairs(before)).contains_key(entry.0));
                lemma_assoc_push(registration_pairs(before), entry.0, entry.1);
                assert(assoc_map(registration_pairs(r@)) =~= assoc_map(all.take(j + 1)).restrict(
                    other_paths(p@),
                ));
            }
        } else {
            proof {
                assert(registration_entry_view(v@[j as int]) == entry);
                assert(assoc_map(registration_pairs(r@)) =~= assoc_map(all.take(j + 1)).restrict(
                    other_paths(p@),
                ));
            }
        }
        j += 1;
    }
    proof {
        assert(all.take(v.len() as int) =~= all);
    }
    r
}

impl RegistrationTable {
    fn record_unregister(&mut self, normalized_path: &str) -> (stats: UnregisterStats)
        requires
            old(self).wf(),
            old(self).total_unregister_requests < usize::MAX,
        ensures
            final(self).wf(),
            final(self)@ == old(self)@.after_unregister(normalized_path@),
            stats.normalized_path@ == normalized_path@,
            stats.unmatched_unregister == !old(self)@.path_refcounts.contains_key(normalized_path@),
            stats.refcount_for_path_after_remove == if old(self)@.path_refcounts.contains_key(
                normalized_path@,
            ) {
                old(self)@.path_refcounts[normalized_path@] - 1
            } else {
                0
            },
    {
        let ghost d = self@;
        let ghost p = normalized_path@;
        self.total_unregister_requests += 1;
        let path = normalized_path.to_owned();
        let mut unmatched_unregister = false;
        let refcount_for_path_after_remove: usize = match find_refcount(
            &self.path_refcounts,
            &path,
        ) {
            Some(i) => {
                let ghost before = self.path_refcounts@;
                let c: usize = self.path_refcounts[i].1;
                proof {
                    lemma_assoc_index(refcount_pairs(before), i as int);
                    assert(refcount_pairs(before)[i as int] == refcount_entry_view(before[i as int]));
                    assert(d.path_refcounts.contains_key(p));
                    assert(c > 0);
                }
                let remaining: usize = c - 1;
                if remaining == 0 {
                    self.path_refcounts.remove(i);
                    proof {
                        assert(refcount_pairs(self.path_refcounts@) =~= refcount_pairs(
                            before,
                        ).remove(i as int));
                        lemma_assoc_remove(refcount_pairs(before), i as int);
                    }
                    let kept = registrations_without_path(&self.registrations, &path);
                    self.registrations = kept;
                } else {
                    self.path_refcounts.set(i, (path.clone(), remaining));
                    proof {
                        assert(refcount_pairs(self.path_refcounts@) =~= refcount_pairs(
                            before,
                        ).update(i as int, (refcount_pairs(before)[i as int].0, remaining)));
                        lemma_assoc_update(refcount_pairs(before), i as int, remaining);
                    }
                }
                remaining
            },
            None => {
                self.unmatched_unregister_requests += 1;
                unmatched_unregister = true;
                0
            },
        };
        proof {
            let e = d.after_unregister(p);
            assert(self@.path_refcounts =~= e.path_refcounts);
            assert(self@.registrations =~= e.registrations);
            assert(self@ =~= e);
        }
        UnregisterStats { normalized_path: path, refcount_for_path_after_remove, unmatched_unregister }
    }
}

impl View for RegistrationDiagnostics {
    type V = DiagnosticsView;

    closed spec fn view(&self) -> DiagnosticsView {
        self.table.view()
    }
}

impl RegistrationDiagnostics {
    #[verifier::type_invariant]
    spec fn table_is_consistent(&self) -> bool {
        self.table.wf()
    }

    /// No registration yet.
    pub fn new() -> (r: Self)
        ensures
            r@.consistent(),
            r@.total_register_requests == 0,
            r@.total_unregister_requests == 0,
            r@.duplicate_register_requests == 0,
            r@.unmatched_unregister_requests == 0,
            r@.path_refcounts == Map::<Seq<char>, usize>::empty(),
            r@.registrations == Map::<RegistrationKeyView, usize>::empty(),
    {
        RegistrationDiagnostics { table: RegistrationTable::new() }
    }

    /// Records a register request for the (already normalized) path
    /// `normalized_path` with mode `recursive_mode`.
    pub fn record_register(&mut self, normalized_path: &str, recursive_mode: RecursiveMode) -> (stats:
        RegisterStats)
        requires
            old(self)@.total_register_requests < usize::MAX,
        ensures
            final(self)@.consistent(),
            final(self)@ == old(self)@.after_register(normalized_path@, recursive_mode),
            stats.normalized_path@ == normalized_path@,
            stats.refcount_for_registration == count_of(
                old(self)@.registrations,
                (normalized_path@, recursive_mode),
            ) + 1,
            stats.duplicate_registration == (stats.refcount_for_registration > 1),
            final(self)@.duplicate_register_requests == old(self)@.duplicate_register_requests + if stats.duplicate_registration {
                1nat
            } else {
                0nat
            },
            final(self)@.registrations[(normalized_path@, recursive_mode)]
                == stats.refcount_for_registration,
    {
        proof {
            use_type_invariant(&*self);
        }
        let mut table = RegistrationTable::new();
        std::mem::swap(&mut table, &mut self.table);
        let stats = table.record_register(normalized_path, recursive_mode);
        self.table = table;
        stats
    }

    /// Records an unregister request for the (already normalized) path
    /// `normalized_path`.
    pub fn record_unregister(&mut self, normalized_path: &str) -> (stats: UnregisterStats)
        requires
            old(self)@.total_unregister_requests < usize::MAX,
        ensures
            final(self)@.consistent(),
            final(self)@ == old(self)@.after_unregister(normalized_path@),
            stats.normalized_path@ == normalized_path@,
            stats.unmatched_unregister == !old(self)@.path_refcounts.contains_key(normalized_path@),
            stats.refcount_for_path_after_remove == if old(self)@.path_refcounts.contains_key(
                normalized_path@,
            ) {
                old(self)@.path_refcounts[normalized_path@] - 1
            } else {
                0
            },
    {
        proof {
            use_type_invariant(&*self);
        }
        let mut table = RegistrationTable::new();
        std::mem::swap(&mut table, &mut self.table);
        let stats = table.record_unregister(normalized_path);
        self.table = table;
        stats
    }

    /// The number of register requests so far.
    pub fn total_register_requests(&self) -> (r: usize)
        ensures
            r == self@.total_register_requests,
    {
        self.table.total_register_requests
    }

    /// The number of unregister requests so far.
    pub fn total_unregister_requests(&self) -> (r: usize)
        ensures
            r == self@.total_unregister_requests,
    {
        self.table.total_unregister_requests
    }

    /// The number of register requests for a registration that was already alive.
    pub fn duplicate_register_requests(&self) -> (r: usize)
        ensures
            r == self@.duplicate_register_requests,
    {
        self.table.duplicate_register_requests
    }

    /// The number of unregister requests for a path that was not registered.
    pub fn unmatched_unregister_requests(&self) -> (r: usize)
        ensures
            r == self@.unmatched_unregister_requests,
    {
        self.table.unmatched_unregister_requests
    }

    /// The live paths, each with its reference count, each path once.
    pub fn path_refcounts(&self) -> (r: &Vec<(String, usize)>)
        ensures
            keys_distinct(refcount_pairs(r@)),
            assoc_map(refcount_pairs(r@)) == self@.path_refcounts,
    {
        proof {
            use_type_invariant(self);
        }
        &self.table.path_refcounts
    }

    /// The live registrations, each with its count, each registration once.
    pub fn registrations(&self) -> (r: &Vec<(RegistrationKey, usize)>)
        ensures
            keys_distinct(registration_pairs(r@)),
            assoc_map(registration_pairs(r@)) == self@.registrations,
    {
        proof {
            use_type_invariant(self);
        }
        &self.table.registrations
    }
}

impl Default for RegistrationDiagnostics {
    fn default() -> (r: Self)
        ensures
            r@.consistent(),
            r@.total_register_requests == 0,
            r@.total_unregister_requests == 0,
            r@.duplicate_register_requests == 0,
            r@.unmatched_unregister_requests == 0,
            r@.path_refcounts == Map::<Seq<char>, usize>::empty(),
            r@.registrations == Map::<RegistrationKeyView, usize>::empty(),
    {
        RegistrationDiagnostics::new()
    }
}

/// Registering a path and then unregistering it gives every path back the
/// reference count it had; where the path was not registered before, its
/// registrations are gone again too.
pub proof fn lemma_register_then_unregister_restores(
    d: DiagnosticsView,
    p: Seq<char>,
    mode: RecursiveMode,
)
    requires
        d.consistent(),
        d.total_register_requests < usize::MAX,
    ensures
        d.after_register(p, mode).after_unregister(p).path_refcounts == d.path_refcounts,
        !d.path_refcounts.contains_key(p) ==> d.after_register(p, mode).after_unregister(
            p,
        ).registrations == d.registrations,
        d.after_register(p, mode).after_unregister(p).total_register_requests
            == d.total_register_requests + 1,
        d.after_register(p, mode).after_unregister(p).total_unregister_requests
            == d.total_unregister_requests + 1,
{
    let r = d.after_register(p, mode);
    let u = r.after_unregister(p);
    if d.path_refcounts.contains_key(p) {
        assert(u.path_refcounts =~= d.path_refcounts);
    } else {
        assert(u.path_refcounts =~= d.path_refcounts);
        assert forall|k: RegistrationKeyView| d.registrations.contains_key(k) implies k.0 != p by {}
        assert(u.registrations =~= d.registrations);
    }
}

/// Consistency is kept by every register and unregister request (as long as
/// the register count fits in a machine word).
pub proof fn lemma_requests_keep_consistency(d: DiagnosticsView, p: Seq<char>, mode: RecursiveMode)
    requires
        d.consistent(),
        d.total_register_requests < usize::MAX,
    ensures
        d.after_register(p, mode).consistent(),
        d.after_unregister(p).consistent(),
{
}

/// Once the last reference to a path is dropped, the path and all its
/// registrations are forgotten, and the other paths keep theirs.
pub proof fn lemma_last_unregister_forgets_path(d: DiagnosticsView, p: Seq<char>)
    requires
        d.consistent(),
        d.path_refcounts.contains_key(p),
        d.path_refcounts[p] == 1,
    ensures
        !d.after_unregister(p).path_refcounts.contains_key(p),
        forall|k: RegistrationKeyView| #[trigger]
            d.after_unregister(p).registrations.contains_key(k) ==> k.0 != p,
        forall|k: RegistrationKeyView|
            k.0 != p ==> (#[trigger] d.after_unregister(p).registrations.contains_key(k)
                <==> d.registrations.contains_key(k)),
{
}

/// A command for the background watcher: start or stop watching a path.
/// `normalized_path` is the canonical form of `path` under which the
/// registration is counted.
#[derive(Debug)]
pub enum WatcherCommand {
    AddPath { path: String, normalized_path: String, recursive_mode: RecursiveMode },
    RemovePath { path: String, normalized_path: String },
}

/// What the background watcher must do for a command, with what the
/// bookkeeping found.
#[derive(Debug)]
pub enum WatcherAction {
    Watch { path: String, recursive_mode: RecursiveMode, stats: RegisterStats },
    Unwatch { path: String, stats: UnregisterStats },
}

impl RegistrationDiagnostics {
    /// Whether the counters leave room for `command`.
    pub open spec fn can_handle(&self, command: &WatcherCommand) -> bool {
        match command {
            WatcherCommand::AddPath { .. } => self@.total_register_requests < usize::MAX,
            WatcherCommand::RemovePath { .. } => self@.total_unregister_requests < usize::MAX,
        }
    }

    /// Takes one command of the background watcher: records it, and returns
    /// the watch or unwatch that the watcher has to perform on the path as
    /// given.
    pub fn handle_command(&mut self, command: WatcherCommand) -> (action: WatcherAction)
        requires
            old(self).can_handle(&command),
        ensures
            final(self)@.consistent(),
            match command {
                WatcherCommand::AddPath { path, normalized_path, recursive_mode } => {
                    &&& final(self)@ == old(self)@.after_register(normalized_path@, recursive_mode)
                    &&& action matches WatcherAction::Watch { path: p, recursive_mode: m, stats }
                        && p == path && m == recursive_mode && stats.normalized_path@
                        == normalized_path@ && stats.refcount_for_registration == count_of(
                        old(self)@.registrations,
                        (normalized_path@, recursive_mode),
                    ) + 1 && stats.duplicate_registration == (stats.refcount_for_registration > 1)
                },
                WatcherCommand::RemovePath { path, normalized_path } => {
                    &&& final(self)@ == old(self)@.after_unregister(normalized_path@)
                    &&& action matches WatcherAction::Unwatch { path: p, stats } && p == path
                        && stats.normalized_path@ == normalized_path@ && stats.unmatched_unregister
                        == !old(self)@.path_refcounts.contains_key(normalized_path@)
                        && stats.refcount_for_path_after_remove == if old(
                        self,
                    )@.path_refcounts.contains_key(normalized_path@) {
                        old(self)@.path_refcounts[normalized_path@] - 1
                    } else {
                        0
                    }
                },
            },
    {
        match command {
            WatcherCommand::AddPath { path, normalized_path, recursive_mode } => {
                let stats = self.record_register(normalized_path.as_str(), recursive_mode);
                WatcherAction::Watch { path, recursive_mode, stats }
            },
            WatcherCommand::RemovePath { path, normalized_path } => {
                let stats = self.record_unregister(normalized_path.as_str());
                WatcherAction::Unwatch { path, stats }
            },
        }
    }
}

/// The effect of `n` register requests for the same path and mode.
pub open spec fn registered_repeatedly(
    d: DiagnosticsView,
    p: Seq<char>,
    mode: RecursiveMode,
    n: nat,
) -> DiagnosticsView
    decreases n,
{
    if n == 0 {
        d
    } else {
        registered_repeatedly(d, p, mode, (n - 1) as nat).after_register(p, mode)
    }
}

/// Registering the same path and mode `n` times counts every request after
/// the first live one as a duplicate: `n - 1` duplicates for a registration
/// that was not alive, `n` for one that was; the registration's count grows
/// by `n`.
pub proof fn lemma_repeated_registrations_count_duplicates(
    d: DiagnosticsView,
    p: Seq<char>,
    mode: RecursiveMode,
    n: nat,
)
    requires
        d.consistent(),
        d.total_register_requests + n <= usize::MAX,
    ensures
        ({
            let r = registered_repeatedly(d, p, mode, n);
            &&& r.total_register_requests == d.total_register_requests + n
            &&& count_of(r.registrations, (p, mode)) == count_of(d.registrations, (p, mode)) + n
            &&& r.duplicate_register_requests == d.duplicate_register_requests + if count_of(
                d.registrations,
                (p, mode),
            ) > 0 {
                n
            } else if n > 0 {
                (n - 1) as nat
            } else {
                0
            }
            &&& r.consistent()
        }),
    decreases n,
{
    if n > 0 {
        lemma_repeated_registrations_count_duplicates(d, p, mode, (n - 1) as nat);
        let q = registered_repeatedly(d, p, mode, (n - 1) as nat);
        lemma_requests_keep_consistency(q, p, mode);
        if q.registrations.contains_key((p, mode)) {
            assert(q.registrations[(p, mode)] <= q.total_register_requests);
        }
    }
}

} // verus!
