//! The synchronization reconciler.
//!
//! A `FileWatcher` holds the current mapping, the reverse index from
//! destination to owning source, the content snapshot cache and the
//! recency guard. It decides, for each filesystem event, whether to
//! propagate a source change, warn about an independent destination
//! edit, suppress an echo of its own write, retract a deleted source,
//! or do nothing. The surrounding process feeds it events, file
//! contents and the clock, and performs the writes it plans.

use vstd::prelude::*;

use crate::assoc::{
    assoc_find, assoc_has, assoc_keys_unique, assoc_set, assoc_value, clone_bytes,
    lemma_assoc_index,
};
use crate::config::{
    has_source, is_dest, lemma_owner_push, mapping_without_source, owner_of, Config, EntryModel,
};

verus! {

/// An edit of a destination is treated as an echo of the reconciler's
/// own write when the destination was recorded this recently.
pub const ECHO_WINDOW_MILLIS: u64 = 2000;

/// Recency-guard entries older than this are purged before each event.
pub const PURGE_WINDOW_MILLIS: u64 = 5000;

/// `t` lies within `window` milliseconds before `now` (an instant not
/// yet reached counts as within every window).
pub open spec fn within_window(t: u64, now: u64, window: u64) -> bool {
    now < t || now - t < window
}

/// Exec test for `within_window`.
pub fn is_within_window(t: u64, now: u64, window: u64) -> (r: bool)
    ensures
        r == within_window(t, now, window),
{
    if t > now {
        true
    } else {
        now - t < window
    }
}

/// The reverse index lists exactly the destinations of `m`; each is
/// owned by the source of the last entry listing it.
pub open spec fn rev_ok(rev: Seq<(String, String)>, m: Seq<EntryModel>) -> bool {
    &&& assoc_keys_unique(rev)
    &&& forall|d: Seq<char>|
        #![trigger assoc_has(rev, d)]
        #![trigger is_dest(m, d)]
        assoc_has(rev, d) <==> is_dest(m, d)
    &&& forall|i: int| 0 <= i < rev.len() ==> #[trigger] rev[i].1@ == owner_of(m, rev[i].0@)
}

/// Partial mapping model while the reverse index is being rebuilt: the
/// first `i` entries whole, and of entry `i` the first `j` destinations.
pub open spec fn partial_model(m: Seq<EntryModel>, i: int, j: int) -> Seq<EntryModel> {
    m.take(i).push(EntryModel { source: m[i].source, dests: m[i].dests.take(j) })
}

proof fn lemma_take_push_contains(s: Seq<Seq<char>>, j: int, d: Seq<char>)
    requires
        0 <= j < s.len(),
    ensures
        s.take(j + 1).contains(d) <==> (s.take(j).contains(d) || s[j] == d),
{
    assert(s.take(j + 1) =~= s.take(j).push(s[j]));
    if s.take(j + 1).contains(d) {
        let l = choose|l: int| 0 <= l < j + 1 && (#[trigger] s.take(j + 1)[l]) == d;
        if l < j {
            assert(s.take(j)[l] == d);
            assert(s.take(j).contains(d));
        } else {
            assert(s[j] == d);
        }
    }
    if s.take(j).contains(d) {
        let l = choose|l: int| 0 <= l < j && s.take(j)[l] == d;
        assert(s.take(j + 1)[l] == d);
        assert(s.take(j + 1).contains(d));
    }
    if s[j] == d {
        assert(s.take(j + 1)[j] == d);
        assert(s.take(j + 1).contains(d));
    }
}

/// Kind of a raw filesystem event.
#[derive(Clone, Copy, PartialEq, Eq, Structural, Debug)]
pub enum EventKind {
    Create,
    Modify,
    Remove,
    Other,
}

/// What one event path calls for.
#[derive(PartialEq, Debug)]
pub enum Classification {
    /// The path is a tracked source: propagate its new content.
    Propagate,
    /// The path is a tracked source that was removed: retract it.
    SourceDeleted,
    /// The path is a destination edited independently: warn, naming
    /// its owning source.
    Desync { source: String },
    /// The path is a destination, but the edit is an echo of the
    /// reconciler's own recent write: stay silent.
    SuppressedEcho,
    /// The path is not tracked: do nothing.
    Ignore,
}

/// Mathematical model of a classification.
#[verifier::ext_equal]
pub ghost enum ClassModel {
    Propagate,
    SourceDeleted,
    Desync { source: Seq<char> },
    SuppressedEcho,
    Ignore,
}

impl DeepView for Classification {
    type V = ClassModel;

    open spec fn deep_view(&self) -> ClassModel {
        match self {
            Classification::Propagate => ClassModel::Propagate,
            Classification::SourceDeleted => ClassModel::SourceDeleted,
            Classification::Desync { source } => ClassModel::Desync { source: source@ },
            Classification::SuppressedEcho => ClassModel::SuppressedEcho,
            Classification::Ignore => ClassModel::Ignore,
        }
    }
}

/// The recency guard holds an entry for `k` young enough that an event
/// on `k` counts as an echo of the reconciler's own write.
pub open spec fn suppressed(recents: Seq<(String, u64)>, k: Seq<char>, now: u64) -> bool {
    exists|i: int|
        0 <= i < recents.len() && (#[trigger] recents[i]).0@ == k && within_window(
            recents[i].1,
            now,
            ECHO_WINDOW_MILLIS,
        )
}

/// The instant recorded for `k` in the recency guard, if any.
pub open spec fn recency_of(s: Seq<(String, u64)>, k: Seq<char>) -> Option<u64> {
    if assoc_has(s, k) {
        Some(assoc_value(s, k))
    } else {
        None
    }
}

/// Under distinct keys, suppression is exactly: an instant is recorded
/// and lies within the echo window.
pub proof fn lemma_suppressed_recency(s: Seq<(String, u64)>, k: Seq<char>, now: u64)
    requires
        assoc_keys_unique(s),
    ensures
        suppressed(s, k, now) <==> (recency_of(s, k) matches Some(t) && within_window(
            t,
            now,
            ECHO_WINDOW_MILLIS,
        )),
{
    if suppressed(s, k, now) {
        let i = choose|i: int|
            0 <= i < s.len() && (#[trigger] s[i]).0@ == k && within_window(
                s[i].1,
                now,
                ECHO_WINDOW_MILLIS,
            );
        lemma_assoc_index(s, k, i);
    }
    if assoc_has(s, k) && within_window(assoc_value(s, k), now, ECHO_WINDOW_MILLIS) {
        let i = choose|i: int| 0 <= i < s.len() && s[i].0@ == k;
        lemma_assoc_index(s, k, i);
        assert(s[i].0@ == k && within_window(s[i].1, now, ECHO_WINDOW_MILLIS));
    }
}

/// The content snapshot recorded for `k`, if any.
pub open spec fn snapshot_of(s: Seq<(String, Vec<u8>)>, k: Seq<char>) -> Option<Seq<u8>> {
    if assoc_has(s, k) {
        Some(assoc_value(s, k)@)
    } else {
        None
    }
}

/// What the reconciler decides for one path of one event.
pub open spec fn spec_classify(
    m: Seq<EntryModel>,
    recents: Seq<(String, u64)>,
    kind: EventKind,
    path: Seq<char>,
    now: u64,
) -> ClassModel {
    match kind {
        EventKind::Remove => if has_source(m, path) {
            ClassModel::SourceDeleted
        } else {
            ClassModel::Ignore
        },
        EventKind::Create | EventKind::Modify => if has_source(m, path) {
            ClassModel::Propagate
        } else if is_dest(m, path) {
            if suppressed(recents, path, now) {
                ClassModel::SuppressedEcho
            } else {
                ClassModel::Desync { source: owner_of(m, path) }
            }
        } else {
            ClassModel::Ignore
        },
        EventKind::Other => ClassModel::Ignore,
    }
}

/// The recency guard with every entry outside the purge window dropped,
/// order preserved.
pub open spec fn purged(s: Seq<(String, u64)>, now: u64) -> Seq<(String, u64)>
    decreases s.len(),
{
    if s.len() == 0 {
        Seq::empty()
    } else {
        let rest = purged(s.drop_last(), now);
        if within_window(s.last().1, now, PURGE_WINDOW_MILLIS) {
            rest.push(s.last())
        } else {
            rest
        }
    }
}

/// Purging keeps a sub-list of the pairs, so distinct keys stay
/// distinct.
pub proof fn lemma_purged_unique(s: Seq<(String, u64)>, now: u64)
    requires
        assoc_keys_unique(s),
    ensures
        assoc_keys_unique(purged(s, now)),
        forall|a: int|
            0 <= a < purged(s, now).len() ==> exists|b: int|
                0 <= b < s.len() && s[b] == #[trigger] purged(s, now)[a],
    decreases s.len(),
{
    if s.len() > 0 {
        let prefix = s.drop_last();
        assert(forall|i: int| 0 <= i < prefix.len() ==> prefix[i] == s[i]);
        lemma_purged_unique(prefix, now);
        let p = purged(s, now);
        let pp = purged(prefix, now);
        if within_window(s.last().1, now, PURGE_WINDOW_MILLIS) {
            assert(p == pp.push(s.last()));
            assert forall|a: int| 0 <= a < p.len() implies exists|b: int|
                0 <= b < s.len() && s[b] == #[trigger] p[a] by {
                if a < pp.len() {
                    let b = choose|b: int| 0 <= b < prefix.len() && prefix[b] == pp[a];
                    assert(s[b] == p[a]);
                } else {
                    assert(s[s.len() - 1] == p[a]);
                }
            }
            assert forall|i: int, j: int| 0 <= i < j < p.len() implies p[i].0@ != p[j].0@ by {
                let bi = choose|b: int| 0 <= b < s.len() && s[b] == p[i];
                if j < pp.len() {
                    assert(pp[i].0@ != pp[j].0@);
                } else {
                    assert(p[j] == s.last());
                    let b = choose|b: int| 0 <= b < prefix.len() && prefix[b] == pp[i];
                    assert(s[b].0@ != s[s.len() - 1].0@);
                }
            }
        } else {
            assert(p == pp);
            assert forall|a: int| 0 <= a < p.len() implies exists|b: int|
                0 <= b < s.len() && s[b] == #[trigger] p[a] by {
                let b = choose|b: int| 0 <= b < prefix.len() && prefix[b] == pp[a];
                assert(s[b] == p[a]);
            }
        }
    }
}

/// What the surrounding process observed at a destination path just
/// before propagation: the file is absent, unreadable, or present with
/// the given content.
#[derive(PartialEq, Debug)]
pub enum FileState {
    Absent,
    Unreadable,
    Present(Vec<u8>),
}

/// Mathematical model of a destination observation's state.
#[verifier::ext_equal]
pub ghost enum FileStateModel {
    Absent,
    Unreadable,
    Present(Seq<u8>),
}

impl DeepView for FileState {
    type V = FileStateModel;

    open spec fn deep_view(&self) -> FileStateModel {
        match self {
            FileState::Absent => FileStateModel::Absent,
            FileState::Unreadable => FileStateModel::Unreadable,
            FileState::Present(c) => FileStateModel::Present(c@),
        }
    }
}

/// One destination path with what was observed there.
#[derive(Debug)]
pub struct DestObservation {
    pub path: String,
    pub state: FileState,
}

/// Mathematical model of a destination observation.
#[verifier::ext_equal]
pub ghost struct DestObservationModel {
    pub path: Seq<char>,
    pub state: FileStateModel,
}

impl DeepView for DestObservation {
    type V = DestObservationModel;

    open spec fn deep_view(&self) -> DestObservationModel {
        DestObservationModel { path: self.path@, state: self.state.deep_view() }
    }
}

/// What propagation does to one destination.
#[derive(Clone, Copy, PartialEq, Eq, Structural, Debug)]
pub enum DestAction {
    /// Write the new source content (creating the file if absent).
    Write,
    /// The destination drifted from the source on its own: leave it
    /// untouched and report it.
    SkipDesynced,
    /// The destination exists but could not be read: leave it and
    /// report an error.
    SkipUnreadable,
}

/// The destination was faithfully tracking the source before the edit:
/// its content equals the old snapshot, or no snapshot had been taken
/// yet.
pub open spec fn spec_was_in_sync(old_snap: Option<Seq<u8>>, dest_content: Seq<u8>) -> bool {
    match old_snap {
        None => true,
        Some(o) => o == dest_content,
    }
}

/// The propagation decision for one destination: absent ones are
/// created, in-sync ones overwritten, drifted ones left untouched,
/// unreadable ones skipped.
pub open spec fn spec_decide(old_snap: Option<Seq<u8>>, st: FileStateModel) -> DestAction {
    match st {
        FileStateModel::Absent => DestAction::Write,
        FileStateModel::Unreadable => DestAction::SkipUnreadable,
        FileStateModel::Present(c) => if spec_was_in_sync(old_snap, c) {
            DestAction::Write
        } else {
            DestAction::SkipDesynced
        },
    }
}

/// View of an optional borrowed byte vector.
pub open spec fn opt_bytes_view(o: Option<&Vec<u8>>) -> Option<Seq<u8>> {
    match o {
        None => None,
        Some(v) => Some(v@),
    }
}

/// Exec form of `spec_decide`.
pub fn decide_dest(old_snap: Option<&Vec<u8>>, state: &FileState) -> (r: DestAction)
    ensures
        r == spec_decide(opt_bytes_view(old_snap), state.deep_view()),
{
    match state {
        FileState::Absent => DestAction::Write,
        FileState::Unreadable => DestAction::SkipUnreadable,
        FileState::Present(c) => match old_snap {
            None => DestAction::Write,
            Some(o) => if crate::bytes_eq(o, c) {
                DestAction::Write
            } else {
                DestAction::SkipDesynced
            },
        },
    }
}

/// How many destinations were written successfully.
pub open spec fn count_synced(acts: Seq<DestAction>, ok: Seq<bool>) -> int
    decreases acts.len(),
{
    if acts.len() == 0 {
        0
    } else {
        count_synced(acts.drop_last(), ok.drop_last()) + if acts.last() == DestAction::Write
            && ok.last() {
            1int
        } else {
            0int
        }
    }
}

/// How many destinations were left out as drifted.
pub open spec fn count_desynced(acts: Seq<DestAction>) -> int
    decreases acts.len(),
{
    if acts.len() == 0 {
        0
    } else {
        count_desynced(acts.drop_last()) + if acts.last() == DestAction::SkipDesynced {
            1int
        } else {
            0int
        }
    }
}

/// Counts, from the planned actions and the write results the process
/// reports back, how many destinations were synced and how many were
/// left out as drifted.
pub fn count_outcomes(actions: &Vec<DestAction>, write_ok: &Vec<bool>) -> (r: (usize, usize))
    requires
        write_ok@.len() == actions@.len(),
    ensures
        r.0 == count_synced(actions@, write_ok@),
        r.1 == count_desynced(actions@),
{
    let mut synced: usize = 0;
    let mut desynced: usize = 0;
    let mut i: usize = 0;
    while i < actions.len()
        invariant
            0 <= i <= actions@.len(),
            write_ok@.len() == actions@.len(),
            synced == count_synced(actions@.take(i as int), write_ok@.take(i as int)),
            desynced == count_desynced(actions@.take(i as int)),
            synced <= i,
            desynced <= i,
        decreases actions@.len() - i,
    {
        proof {
            assert(actions@.take(i as int + 1).drop_last() =~= actions@.take(i as int));
            assert(write_ok@.take(i as int + 1).drop_last() =~= write_ok@.take(i as int));
            assert(actions@.take(i as int + 1).last() == actions@[i as int]);
            assert(write_ok@.take(i as int + 1).last() == write_ok@[i as int]);
        }
        let a = actions[i];
        if matches!(a, DestAction::Write) && write_ok[i] {
            synced = synced + 1;
        }
        if matches!(a, DestAction::SkipDesynced) {
            desynced = desynced + 1;
        }
        i = i + 1;
    }
    proof {
        assert(actions@.take(actions@.len() as int) =~= actions@);
        assert(write_ok@.take(write_ok@.len() as int) =~= write_ok@);
    }
    (synced, desynced)
}

/// The reconciler: mapping, reverse index, content snapshots and
/// recency guard.
pub struct FileWatcher {
    pub config: Config,
    pub reverse_mappings: Vec<(String, String)>,
    pub last_known_content: Vec<(String, Vec<u8>)>,
    pub recently_synced: Vec<(String, u64)>,
}

impl FileWatcher {
    /// The reverse index matches the mapping, and the two caches have
    /// distinct keys.
    pub open spec fn wf(&self) -> bool {
        &&& rev_ok(self.reverse_mappings@, self.config@)
        &&& assoc_keys_unique(self.last_known_content@)
        &&& assoc_keys_unique(self.recently_synced@)
    }

    /// A fresh reconciler over `config`: reverse index derived, caches
    /// empty.
    pub fn new(config: Config) -> (r: FileWatcher)
        ensures
            r.wf(),
            r.config@ == config@,
            r.last_known_content@.len() == 0,
            r.recently_synced@.len() == 0,
    {
        let mut w = FileWatcher {
            config,
            reverse_mappings: Vec::new(),
            last_known_content: Vec::new(),
            recently_synced: Vec::new(),
        };
        w.update_reverse_mappings();
        w
    }

    /// Replaces the mapping with a freshly loaded one and rebuilds the
    /// reverse index from it (the reload phase before classifying an
    /// event).
    pub fn set_config(&mut self, config: Config)
        requires
            old(self).wf(),
        ensures
            final(self).wf(),
            final(self).config@ == config@,
            final(self).last_known_content == old(self).last_known_content,
            final(self).recently_synced == old(self).recently_synced,
    {
        self.config = config;
        self.update_reverse_mappings();
    }

    /// Rebuilds the reverse index from the current mapping: one pair
    /// per distinct destination, owned by the source of the last entry
    /// listing it.
    pub fn update_reverse_mappings(&mut self)
        ensures
            final(self).config == old(self).config,
            final(self).last_known_content == old(self).last_known_content,
            final(self).recently_synced == old(self).recently_synced,
            rev_ok(final(self).reverse_mappings@, final(self).config@),
    {
        self.reverse_mappings.clear();
        let ghost m0 = self.config@;
        let mut i: usize = 0;
        while i < self.config.mappings.len()
            invariant
                0 <= i <= m0.len(),
                self.config == old(self).config,
                self.last_known_content == old(self).last_known_content,
                self.recently_synced == old(self).recently_synced,
                self.config@ == m0,
                m0.len() == self.config.mappings.len(),
                rev_ok(self.reverse_mappings@, m0.take(i as int)),
            decreases m0.len() - i,
        {
            let entry = &self.config.mappings[i];
            proof {
                assert(m0[i as int] == entry@);
            }
            let ghost ds = entry@.dests;
            let mut j: usize = 0;
            proof {
                let mp = partial_model(m0, i as int, 0);
                assert(mp.drop_last() =~= m0.take(i as int));
                assert forall|d: Seq<char>| #[trigger] is_dest(mp, d) <==> is_dest(
                    m0.take(i as int),
                    d,
                ) by {
                    lemma_owner_push(m0.take(i as int), mp.last(), d);
                }
                assert forall|idx: int|
                    0 <= idx < self.reverse_mappings@.len() implies #[trigger] self
                    .reverse_mappings@[idx].1@ == owner_of(mp, self.reverse_mappings@[idx].0@) by {
                    let d = self.reverse_mappings@[idx].0@;
                    lemma_owner_push(m0.take(i as int), mp.last(), d);
                    assert(is_dest(m0.take(i as int), d));
                }
            }
            while j < entry.destinations.len()
                invariant
                    0 <= j <= ds.len(),
                    0 <= i < m0.len(),
                    m0[i as int] == entry@,
                    ds == entry@.dests,
                    ds.len() == entry.destinations.len(),
                    self.config == old(self).config,
                    self.last_known_content == old(self).last_known_content,
                    self.recently_synced == old(self).recently_synced,
                    self.config@ == m0,
                    assoc_keys_unique(self.reverse_mappings@),
                    forall|d: Seq<char>|
                        #![trigger assoc_has(self.reverse_mappings@, d)]
                        #![trigger is_dest(partial_model(m0, i as int, j as int), d)]
                        assoc_has(self.reverse_mappings@, d) <==> is_dest(
                            partial_model(m0, i as int, j as int),
                            d,
                        ),
                    forall|idx: int|
                        0 <= idx < self.reverse_mappings@.len() ==> #[trigger] self
                            .reverse_mappings@[idx].1@ == owner_of(
                            partial_model(m0, i as int, j as int),
                            self.reverse_mappings@[idx].0@,
                        ),
                decreases ds.len() - j,
            {
                proof {
                    assert(ds[j as int] == entry.destinations@[j as int]@);
                }
                let ghost rev0 = self.reverse_mappings@;
                let dest = entry.destinations[j].clone();
                let src = entry.source.clone();
                let ghost dv = dest@;
                let ghost sv = src@;
                assoc_set(&mut self.reverse_mappings, dest, src);
                proof {
                    let prev = partial_model(m0, i as int, j as int);
                    let cur = partial_model(m0, i as int, j as int + 1);
                    let base = m0.take(i as int);
                    assert(sv == m0[i as int].source);
                    assert(dv == ds[j as int]);
                    lemma_take_push_contains(ds, j as int, dv);
                    assert(ds.take(j as int + 1).contains(dv));
                    assert forall|d: Seq<char>|
                        #![trigger assoc_has(self.reverse_mappings@, d)]
                        #![trigger is_dest(cur, d)]
                        assoc_has(self.reverse_mappings@, d) <==> is_dest(cur, d) by {
                        lemma_owner_push(base, prev.last(), d);
                        lemma_owner_push(base, cur.last(), d);
                        lemma_take_push_contains(ds, j as int, d);
                        if d == dv {
                            assert(assoc_has(self.reverse_mappings@, d));
                            assert(is_dest(cur, d));
                        } else {
                            assert(assoc_has(self.reverse_mappings@, d) <==> assoc_has(rev0, d));
                            assert(ds.take(j as int + 1).contains(d) <==> ds.take(
                                j as int,
                            ).contains(d));
                        }
                    }
                    assert forall|idx: int|
                        0 <= idx < self.reverse_mappings@.len() implies #[trigger] self
                        .reverse_mappings@[idx].1@ == owner_of(
                        cur,
                        self.reverse_mappings@[idx].0@,
                    ) by {
                        let d = self.reverse_mappings@[idx].0@;
                        lemma_owner_push(base, prev.last(), d);
                        lemma_owner_push(base, cur.last(), d);
                        lemma_take_push_contains(ds, j as int, d);
                        lemma_assoc_index(self.reverse_mappings@, d, idx);
                        if d == dv {
                            assert(assoc_value(self.reverse_mappings@, d)@ == sv);
                            assert(owner_of(cur, d) == cur.last().source);
                        } else {
                            assert(assoc_has(rev0, d));
                            let a = choose|a: int| 0 <= a < rev0.len() && rev0[a].0@ == d;
                            lemma_assoc_index(rev0, d, a);
                            assert(assoc_value(self.reverse_mappings@, d) == assoc_value(
                                rev0,
                                d,
                            ));
                            assert(rev0[a].1@ == owner_of(prev, d));
                            assert(ds.take(j as int + 1).contains(d) <==> ds.take(
                                j as int,
                            ).contains(d));
                            assert(owner_of(cur, d) == owner_of(prev, d));
                        }
                    }
                }
                j = j + 1;
            }
            proof {
                let mp = partial_model(m0, i as int, ds.len() as int);
                assert(ds.take(ds.len() as int) =~= ds);
                assert(mp =~~= m0.take(i as int + 1));
            }
            i = i + 1;
        }
        proof {
            assert(m0.take(m0.len() as int) =~= m0);
        }
    }

    /// Classifies one path of one event against the current mapping,
    /// reverse index and recency guard.
    pub fn classify(&self, kind: EventKind, path: &String, now: u64) -> (r: Classification)
        requires
            self.wf(),
        ensures
            r.deep_view() == spec_classify(self.config@, self.recently_synced@, kind, path@, now),
    {
        match kind {
            EventKind::Other => Classification::Ignore,
            EventKind::Remove => {
                if self.config.contains_source(path) {
                    Classification::SourceDeleted
                } else {
                    Classification::Ignore
                }
            },
            EventKind::Create | EventKind::Modify => {
                if self.config.contains_source(path) {
                    Classification::Propagate
                } else {
                    match assoc_find(&self.reverse_mappings, path) {
                        Some(i) => {
                            proof {
                                assert(assoc_has(self.reverse_mappings@, path@));
                                assert(is_dest(self.config@, path@));
                            }
                            let is_echo = match assoc_find(&self.recently_synced, path) {
                                Some(k) => {
                                    let r = is_within_window(
                                        self.recently_synced[k].1,
                                        now,
                                        ECHO_WINDOW_MILLIS,
                                    );
                                    proof {
                                        lemma_assoc_index(self.recently_synced@, path@, k as int);
                                        lemma_suppressed_recency(self.recently_synced@, path@, now);
                                    }
                                    r
                                },
                                None => {
                                    proof {
                                        if suppressed(self.recently_synced@, path@, now) {
                                            let a = choose|a: int|
                                                0 <= a < self.recently_synced@.len() && (
                                                #[trigger] self.recently_synced@[a]).0@ == path@
                                                    && within_window(
                                                    self.recently_synced@[a].1,
                                                    now,
                                                    ECHO_WINDOW_MILLIS,
                                                );
                                            assert(assoc_has(self.recently_synced@, path@));
                                        }
                                    }
                                    false
                                },
                            };
                            if is_echo {
                                Classification::SuppressedEcho
                            } else {
                                let source = self.reverse_mappings[i].1.clone();
                                proof {
                                    assert(self.reverse_mappings@[i as int].1@ == owner_of(
                                        self.config@,
                                        self.reverse_mappings@[i as int].0@,
                                    ));
                                }
                                Classification::Desync { source }
                            }
                        },
                        None => {
                            proof {
                                if is_dest(self.config@, path@) {
                                    assert(assoc_has(self.reverse_mappings@, path@));
                                }
                            }
                            Classification::Ignore
                        },
                    }
                }
            },
        }
    }

    /// Drops recency-guard entries older than the purge window; run at
    /// the start of each event batch.
    pub fn purge_stale(&mut self, now: u64)
        requires
            old(self).wf(),
        ensures
            final(self).wf(),
            final(self).config == old(self).config,
            final(self).reverse_mappings == old(self).reverse_mappings,
            final(self).last_known_content == old(self).last_known_content,
            final(self).recently_synced@ == purged(old(self).recently_synced@, now),
    {
        let ghost s0 = self.recently_synced@;
        let mut kept: Vec<(String, u64)> = Vec::new();
        let mut i: usize = 0;
        while i < self.recently_synced.len()
            invariant
                0 <= i <= s0.len(),
                self.recently_synced@ == s0,
                s0.len() == self.recently_synced.len(),
                kept@ == purged(s0.take(i as int), now),
            decreases s0.len() - i,
        {
            proof {
                assert(s0.take(i as int + 1).drop_last() =~= s0.take(i as int));
                assert(s0.take(i as int + 1).last() == s0[i as int]);
            }
            let t = self.recently_synced[i].1;
            if is_within_window(t, now, PURGE_WINDOW_MILLIS) {
                let key = self.recently_synced[i].0.clone();
                kept.push((key, t));
                proof {
                    assert(kept@.last().0@ == s0[i as int].0@ && kept@.last().1 == s0[i as int].1);
                    assert(kept@ =~= purged(s0.take(i as int), now).push(s0[i as int]));
                }
            }
            i = i + 1;
        }
        proof {
            assert(s0.take(s0.len() as int) =~= s0);
            lemma_purged_unique(s0, now);
        }
        self.recently_synced = kept;
    }

    /// Records `content` as the last-observed content of `source` (the
    /// before-image for the next propagation).
    pub fn record_snapshot(&mut self, source: String, content: Vec<u8>)
        requires
            old(self).wf(),
        ensures
            final(self).wf(),
            final(self).config == old(self).config,
            final(self).reverse_mappings == old(self).reverse_mappings,
            final(self).recently_synced == old(self).recently_synced,
            snapshot_of(final(self).last_known_content@, source@) == Some(content@),
            forall|q: Seq<char>|
                q != source@ ==> #[trigger] snapshot_of(final(self).last_known_content@, q)
                    == snapshot_of(old(self).last_known_content@, q),
    {
        assoc_set(&mut self.last_known_content, source, content);
    }

    /// Records `dest` as written by the reconciler itself at instant
    /// `now`, so that the echo of the write is not mistaken for an
    /// independent edit.
    pub fn record_synced(&mut self, dest: String, now: u64)
        requires
            old(self).wf(),
        ensures
            final(self).wf(),
            final(self).config == old(self).config,
            final(self).reverse_mappings == old(self).reverse_mappings,
            final(self).last_known_content == old(self).last_known_content,
            recency_of(final(self).recently_synced@, dest@) == Some(now),
            forall|q: Seq<char>|
                q != dest@ ==> #[trigger] recency_of(final(self).recently_synced@, q) == recency_of(
                    old(self).recently_synced@,
                    q,
                ),
    {
        assoc_set(&mut self.recently_synced, dest, now);
    }

    /// The snapshot recorded for `source`, as a copy.
    pub fn get_snapshot(&self, source: &String) -> (r: Option<Vec<u8>>)
        requires
            self.wf(),
        ensures
            match r {
                Some(v) => snapshot_of(self.last_known_content@, source@) == Some(v@),
                None => snapshot_of(self.last_known_content@, source@) is None,
            },
    {
        match assoc_find(&self.last_known_content, source) {
            Some(i) => {
                proof {
                    lemma_assoc_index(self.last_known_content@, source@, i as int);
                }
                Some(clone_bytes(&self.last_known_content[i].1))
            },
            None => None,
        }
    }

    /// Plans the propagation of a source change: records `new_content`
    /// as the source's snapshot, and decides for each observed
    /// destination whether to write it, judging each against the
    /// snapshot taken *before* this change. The surrounding process
    /// performs the writes and reports the results back.
    pub fn plan_propagation(
        &mut self,
        source: &String,
        new_content: &Vec<u8>,
        observations: &Vec<DestObservation>,
    ) -> (r: Vec<DestAction>)
        requires
            old(self).wf(),
        ensures
            final(self).wf(),
            final(self).config == old(self).config,
            final(self).reverse_mappings == old(self).reverse_mappings,
            final(self).recently_synced == old(self).recently_synced,
            snapshot_of(final(self).last_known_content@, source@) == Some(new_content@),
            forall|q: Seq<char>|
                q != source@ ==> #[trigger] snapshot_of(final(self).last_known_content@, q)
                    == snapshot_of(old(self).last_known_content@, q),
            r@.len() == observations@.len(),
            forall|i: int|
                0 <= i < observations@.len() ==> #[trigger] r@[i] == spec_decide(
                    snapshot_of(old(self).last_known_content@, source@),
                    observations@[i].state.deep_view(),
                ),
    {
        let ghost snap0 = snapshot_of(self.last_known_content@, source@);
        let old_snap = self.get_snapshot(source);
        self.record_snapshot(source.clone(), clone_bytes(new_content));
        let snap_ref: Option<&Vec<u8>> = match &old_snap {
            Some(v) => Some(v),
            None => None,
        };
        proof {
            assert(opt_bytes_view(snap_ref) == snap0);
        }
        let mut r: Vec<DestAction> = Vec::new();
        let mut i: usize = 0;
        while i < observations.len()
            invariant
                0 <= i <= observations@.len(),
                r@.len() == i,
                opt_bytes_view(snap_ref) == snap0,
                forall|k: int|
                    0 <= k < i ==> #[trigger] r@[k] == spec_decide(
                        snap0,
                        observations@[k].state.deep_view(),
                    ),
            decreases observations@.len() - i,
        {
            let a = decide_dest(snap_ref, &observations[i].state);
            r.push(a);
            i = i + 1;
        }
        r
    }

    /// Retracts a deleted source: drops its entry from the mapping,
    /// rebuilds the reverse index, and hands back the destinations the
    /// entry had (they stay on disk, untouched). `None` when `path` is
    /// not a tracked source.
    pub fn retract_source(&mut self, path: &String) -> (r: Option<Vec<String>>)
        requires
            old(self).wf(),
        ensures
            final(self).wf(),
            final(self).last_known_content == old(self).last_known_content,
            final(self).recently_synced == old(self).recently_synced,
            match r {
                Some(ds) => {
                    &&& has_source(old(self).config@, path@)
                    &&& exists|i: int|
                        {
                            &&& 0 <= i < old(self).config@.len()
                            &&& old(self).config@[i].source == path@
                            &&& (forall|j: int|
                                0 <= j < i ==> old(self).config@[j].source != path@)
                            &&& ds.deep_view() == old(self).config@[i].dests
                        }
                    &&& final(self).config@ == mapping_without_source(old(self).config@, path@)
                },
                None => {
                    &&& !has_source(old(self).config@, path@)
                    &&& final(self).config@ == old(self).config@
                },
            },
    {
        match self.config.find_by_path(path) {
            Some((_, dests)) => {
                self.config.remove_source(path);
                self.update_reverse_mappings();
                Some(dests)
            },
            None => None,
        }
    }
}

} // verus!
