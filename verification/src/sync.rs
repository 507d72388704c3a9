//! Whole-set synchronization and difference reporting.
//!
//! The forced sync copies every source's content to every one of its
//! destinations, regardless of drift; the diff check reports, without
//! touching anything, which destinations are missing or differ. Both
//! work over observations of the files that the surrounding process
//! hands in, and return what it must write or report.

use vstd::prelude::*;

use crate::bytes_eq;
use crate::assoc::clone_bytes;
use crate::watcher::{DestObservation, DestObservationModel, FileState, FileStateModel};

verus! {

/// Outcome counts of a forced whole-set synchronization.
#[derive(Debug)]
pub struct SyncStats {
    pub synced_count: usize,
    pub error_count: usize,
}

/// One difference between a source and a destination.
#[derive(PartialEq, Debug)]
pub enum DiffReport {
    /// The source file itself is gone.
    SourceMissing { source: String },
    /// A destination file is gone.
    DestinationMissing { source: String, destination: String },
    /// Source and destination hold different bytes.
    ContentDiffers {
        source: String,
        destination: String,
        source_size: usize,
        dest_size: usize,
    },
}

/// Mathematical model of a difference report.
#[verifier::ext_equal]
pub ghost enum DiffModel {
    SourceMissing { source: Seq<char> },
    DestinationMissing { source: Seq<char>, destination: Seq<char> },
    ContentDiffers {
        source: Seq<char>,
        destination: Seq<char>,
        source_size: int,
        dest_size: int,
    },
}

impl DeepView for DiffReport {
    type V = DiffModel;

    open spec fn deep_view(&self) -> DiffModel {
        match self {
            DiffReport::SourceMissing { source } => DiffModel::SourceMissing { source: source@ },
            DiffReport::DestinationMissing { source, destination } => DiffModel::DestinationMissing {
                source: source@,
                destination: destination@,
            },
            DiffReport::ContentDiffers { source, destination, source_size, dest_size } => DiffModel::ContentDiffers {
                source: source@,
                destination: destination@,
                source_size: *source_size as int,
                dest_size: *dest_size as int,
            },
        }
    }
}

/// One mapping entry as observed on disk: the source's state and each
/// destination's state.
#[derive(Debug)]
pub struct EntryObservation {
    pub source: String,
    pub state: FileState,
    pub destinations: Vec<DestObservation>,
}

/// Mathematical model of an observed entry.
#[verifier::ext_equal]
pub ghost struct EntryObsModel {
    pub source: Seq<char>,
    pub state: FileStateModel,
    pub dests: Seq<DestObservationModel>,
}

impl DeepView for EntryObservation {
    type V = EntryObsModel;

    open spec fn deep_view(&self) -> EntryObsModel {
        EntryObsModel {
            source: self.source@,
            state: self.state.deep_view(),
            dests: self.destinations.deep_view(),
        }
    }
}

/// View of an optional borrowed path.
pub open spec fn opt_str_view(o: Option<&String>) -> Option<Seq<char>> {
    match o {
        None => None,
        Some(p) => Some(p@),
    }
}

/// The entry concerns the requested path: no path was requested, or
/// the path is the entry's source or one of its destinations.
pub open spec fn entry_matches(e: EntryObsModel, f: Option<Seq<char>>) -> bool {
    match f {
        None => true,
        Some(p) => e.source == p || exists|j: int|
            0 <= j < e.dests.len() && (#[trigger] e.dests[j]).path == p,
    }
}

/// The reports one destination observation contributes, given the
/// source's content `sc`.
pub open spec fn spec_diff_dest(
    src: Seq<char>,
    sc: Seq<u8>,
    d: DestObservationModel,
) -> Seq<DiffModel> {
    match d.state {
        FileStateModel::Absent => seq![
            DiffModel::DestinationMissing { source: src, destination: d.path },
        ],
        FileStateModel::Unreadable => Seq::<DiffModel>::empty(),
        FileStateModel::Present(c) => if c == sc {
            Seq::<DiffModel>::empty()
        } else {
            seq![
                DiffModel::ContentDiffers {
                    source: src,
                    destination: d.path,
                    source_size: sc.len() as int,
                    dest_size: c.len() as int,
                },
            ]
        },
    }
}

/// The reports of all destinations of one entry, in order.
pub open spec fn spec_diff_dests(
    src: Seq<char>,
    sc: Seq<u8>,
    ds: Seq<DestObservationModel>,
) -> Seq<DiffModel>
    decreases ds.len(),
{
    if ds.len() == 0 {
        Seq::empty()
    } else {
        spec_diff_dests(src, sc, ds.drop_last()) + spec_diff_dest(src, sc, ds.last())
    }
}

/// The reports one observed entry contributes: a missing source is one
/// report, an unreadable source none, a readable one is compared with
/// each destination.
pub open spec fn spec_diff_entry(e: EntryObsModel) -> Seq<DiffModel> {
    match e.state {
        FileStateModel::Absent => seq![DiffModel::SourceMissing { source: e.source }],
        FileStateModel::Unreadable => Seq::<DiffModel>::empty(),
        FileStateModel::Present(sc) => spec_diff_dests(e.source, sc, e.dests),
    }
}

/// All reports, in entry order, restricted to entries that concern the
/// requested path (all entries when none is requested).
pub open spec fn spec_check_diff(obs: Seq<EntryObsModel>, f: Option<Seq<char>>) -> Seq<DiffModel>
    decreases obs.len(),
{
    if obs.len() == 0 {
        Seq::empty()
    } else {
        spec_check_diff(obs.drop_last(), f) + if entry_matches(obs.last(), f) {
            spec_diff_entry(obs.last())
        } else {
            Seq::empty()
        }
    }
}

/// One mapping entry as the forced sync observes it: the source's
/// state and the destination paths to copy it to.
#[derive(Debug)]
pub struct SourceObservation {
    pub source: String,
    pub state: FileState,
    pub destinations: Vec<String>,
}

/// Mathematical model of a source observation.
#[verifier::ext_equal]
pub ghost struct SourceObsModel {
    pub source: Seq<char>,
    pub state: FileStateModel,
    pub dests: Seq<Seq<char>>,
}

impl DeepView for SourceObservation {
    type V = SourceObsModel;

    open spec fn deep_view(&self) -> SourceObsModel {
        SourceObsModel {
            source: self.source@,
            state: self.state.deep_view(),
            dests: self.destinations.deep_view(),
        }
    }
}

/// One write the forced sync asks the surrounding process to perform.
#[derive(Debug)]
pub struct SyncWrite {
    pub destination: String,
    pub content: Vec<u8>,
}

/// Mathematical model of a planned write.
#[verifier::ext_equal]
pub ghost struct WriteModel {
    pub destination: Seq<char>,
    pub content: Seq<u8>,
}

impl DeepView for SyncWrite {
    type V = WriteModel;

    open spec fn deep_view(&self) -> WriteModel {
        WriteModel { destination: self.destination@, content: self.content@ }
    }
}

/// The writes one entry contributes: its content to each of its
/// destinations when the source is readable, none otherwise.
pub open spec fn spec_entry_writes(e: SourceObsModel) -> Seq<WriteModel> {
    match e.state {
        FileStateModel::Present(c) => Seq::new(
            e.dests.len(),
            |k: int| WriteModel { destination: e.dests[k], content: c },
        ),
        FileStateModel::Absent => Seq::<WriteModel>::empty(),
        FileStateModel::Unreadable => Seq::<WriteModel>::empty(),
    }
}

/// All writes of a forced sync, in entry order.
pub open spec fn spec_full_sync_writes(obs: Seq<SourceObsModel>) -> Seq<WriteModel>
    decreases obs.len(),
{
    if obs.len() == 0 {
        Seq::empty()
    } else {
        spec_full_sync_writes(obs.drop_last()) + spec_entry_writes(obs.last())
    }
}

/// How many sources could not be read (missing or unreadable).
pub open spec fn spec_source_error_count(obs: Seq<SourceObsModel>) -> int
    decreases obs.len(),
{
    if obs.len() == 0 {
        0
    } else {
        spec_source_error_count(obs.drop_last()) + if obs.last().state is Present {
            0int
        } else {
            1int
        }
    }
}

proof fn lemma_source_error_bound(obs: Seq<SourceObsModel>)
    ensures
        0 <= spec_source_error_count(obs) <= obs.len(),
    decreases obs.len(),
{
    if obs.len() > 0 {
        lemma_source_error_bound(obs.drop_last());
    }
}

/// Plans a forced whole-set sync: every readable source's content is
/// to be written to every one of its destinations, drift ignored; each
/// missing or unreadable source counts one error. The surrounding
/// process performs the writes and reports back.
pub fn plan_full_sync(observations: &Vec<SourceObservation>) -> (r: (Vec<SyncWrite>, usize))
    ensures
        r.0.deep_view() == spec_full_sync_writes(observations.deep_view()),
        r.1 == spec_source_error_count(observations.deep_view()),
{
    let ghost obs = observations.deep_view();
    let mut writes: Vec<SyncWrite> = Vec::new();
    let mut errors: usize = 0;
    let mut i: usize = 0;
    while i < observations.len()
        invariant
            0 <= i <= obs.len(),
            obs == observations.deep_view(),
            obs.len() == observations@.len(),
            writes.deep_view() == spec_full_sync_writes(obs.take(i as int)),
            errors == spec_source_error_count(obs.take(i as int)),
            errors <= i,
        decreases obs.len() - i,
    {
        proof {
            assert(obs.take(i as int + 1).drop_last() =~= obs.take(i as int));
            assert(obs.take(i as int + 1).last() == obs[i as int]);
            assert(obs[i as int] == observations@[i as int].deep_view());
        }
        let entry = &observations[i];
        match &entry.state {
            FileState::Present(content) => {
                let ghost w0 = writes.deep_view();
                let ghost ds = obs[i as int].dests;
                let mut j: usize = 0;
                while j < entry.destinations.len()
                    invariant
                        0 <= j <= ds.len(),
                        ds == entry.deep_view().dests,
                        obs == observations.deep_view(),
                        0 <= i < obs.len(),
                        obs[i as int] == entry.deep_view(),
                        entry.deep_view().state == FileStateModel::Present(content@),
                        ds.len() == entry.destinations.len(),
                        writes.deep_view() =~= w0 + spec_entry_writes(obs[i as int]).take(
                            j as int,
                        ),
                    decreases ds.len() - j,
                {
                    proof {
                        assert(ds[j as int] == entry.destinations@[j as int]@);
                    }
                    let ghost prev = writes.deep_view();
                    writes.push(
                        SyncWrite {
                            destination: entry.destinations[j].clone(),
                            content: clone_bytes(content),
                        },
                    );
                    proof {
                        assert(writes.deep_view() =~~= prev.push(
                            spec_entry_writes(obs[i as int])[j as int],
                        ));
                        assert(spec_entry_writes(obs[i as int]).take(j as int + 1)
                            =~= spec_entry_writes(obs[i as int]).take(j as int).push(
                            spec_entry_writes(obs[i as int])[j as int],
                        ));
                    }
                    j = j + 1;
                }
                proof {
                    let ws = spec_entry_writes(obs[i as int]);
                    assert(ws.take(ws.len() as int) =~= ws);
                    assert(writes.deep_view() =~~= spec_full_sync_writes(obs.take(i as int + 1)));
                }
            },
            FileState::Absent => {
                errors = errors + 1;
                proof {
                    assert(writes.deep_view() =~~= spec_full_sync_writes(obs.take(i as int + 1)));
                }
            },
            FileState::Unreadable => {
                errors = errors + 1;
                proof {
                    assert(writes.deep_view() =~~= spec_full_sync_writes(obs.take(i as int + 1)));
                }
            },
        }
        i = i + 1;
    }
    proof {
        assert(obs.take(obs.len() as int) =~= obs);
    }
    (writes, errors)
}

/// How many write results came back true.
pub open spec fn count_true(s: Seq<bool>) -> int
    decreases s.len(),
{
    if s.len() == 0 {
        0
    } else {
        count_true(s.drop_last()) + if s.last() {
            1int
        } else {
            0int
        }
    }
}

proof fn lemma_count_true_bound(s: Seq<bool>)
    ensures
        0 <= count_true(s) <= s.len(),
    decreases s.len(),
{
    if s.len() > 0 {
        lemma_count_true_bound(s.drop_last());
    }
}

/// Totals a forced sync: one synced file per successful write, one
/// error per failed write on top of the unreadable sources.
pub fn tally_sync(write_ok: &Vec<bool>, source_errors: usize) -> (r: SyncStats)
    requires
        source_errors + write_ok@.len() <= usize::MAX,
    ensures
        r.synced_count == count_true(write_ok@),
        r.error_count == source_errors + write_ok@.len() - count_true(write_ok@),
{
    let mut synced: usize = 0;
    let mut failed: usize = 0;
    let mut i: usize = 0;
    while i < write_ok.len()
        invariant
            0 <= i <= write_ok@.len(),
            synced == count_true(write_ok@.take(i as int)),
            synced + failed == i,
        decreases write_ok@.len() - i,
    {
        proof {
            assert(write_ok@.take(i as int + 1).drop_last() =~= write_ok@.take(i as int));
            assert(write_ok@.take(i as int + 1).last() == write_ok@[i as int]);
        }
        if write_ok[i] {
            synced = synced + 1;
        } else {
            failed = failed + 1;
        }
        i = i + 1;
    }
    proof {
        assert(write_ok@.take(write_ok@.len() as int) =~= write_ok@);
    }
    SyncStats { synced_count: synced, error_count: source_errors + failed }
}

fn dests_contain_path(ds: &Vec<DestObservation>, p: &String) -> (r: bool)
    ensures
        r == exists|j: int|
            0 <= j < ds.deep_view().len() && (#[trigger] ds.deep_view()[j]).path == p@,
{
    let mut j: usize = 0;
    while j < ds.len()
        invariant
            0 <= j <= ds@.len(),
            forall|l: int| 0 <= l < j ==> (#[trigger] ds.deep_view()[l]).path != p@,
        decreases ds@.len() - j,
    {
        if ds[j].path == *p {
            proof {
                assert(ds.deep_view()[j as int].path == p@);
            }
            return true;
        }
        proof {
            assert(ds.deep_view()[j as int].path == ds@[j as int].path@);
        }
        j = j + 1;
    }
    false
}

/// Compares each observed entry's source content with each observed
/// destination, returning every difference found, in order. With a
/// requested path, only entries naming it (as source or destination)
/// are considered.
pub fn check_diff(entries: &Vec<EntryObservation>, file: Option<&String>) -> (r: Vec<DiffReport>)
    ensures
        r.deep_view() == spec_check_diff(entries.deep_view(), opt_str_view(file)),
{
    let ghost obs = entries.deep_view();
    let ghost fv = opt_str_view(file);
    let mut r: Vec<DiffReport> = Vec::new();
    let mut i: usize = 0;
    while i < entries.len()
        invariant
            0 <= i <= obs.len(),
            obs == entries.deep_view(),
            fv == opt_str_view(file),
            obs.len() == entries@.len(),
            r.deep_view() == spec_check_diff(obs.take(i as int), fv),
        decreases obs.len() - i,
    {
        let entry = &entries[i];
        proof {
            assert(obs[i as int] == entry.deep_view());
        }
        let is_match = match file {
            None => true,
            Some(p) => {
                if entry.source == *p {
                    true
                } else {
                    dests_contain_path(&entry.destinations, p)
                }
            },
        };
        proof {
            assert(is_match == entry_matches(obs[i as int], fv));
        }
        if is_match {
            match &entry.state {
                FileState::Absent => {
                    let ghost r0 = r.deep_view();
                    r.push(DiffReport::SourceMissing { source: entry.source.clone() });
                    proof {
                        assert(r.deep_view() =~~= r0 + spec_diff_entry(obs[i as int]));
                    }
                },
                FileState::Unreadable => {
                    proof {
                        assert(r.deep_view() =~~= r.deep_view() + spec_diff_entry(obs[i as int]));
                    }
                },
                FileState::Present(sc) => {
                    let ghost scv = sc@;
                    let ghost base = r.deep_view();
                    let ghost ds = obs[i as int].dests;
                    let mut j: usize = 0;
                    while j < entry.destinations.len()
                        invariant
                            0 <= j <= ds.len(),
                            ds == entry.deep_view().dests,
                            scv == sc@,
                            ds.len() == entry.destinations.len(),
                            r.deep_view() == base + spec_diff_dests(
                                entry.deep_view().source,
                                scv,
                                ds.take(j as int),
                            ),
                        decreases ds.len() - j,
                    {
                        proof {
                            assert(ds.take(j as int + 1).drop_last() =~= ds.take(j as int));
                            assert(ds.take(j as int + 1).last() == ds[j as int]);
                            assert(ds[j as int] == entry.destinations@[j as int].deep_view());
                        }
                        let ghost r0 = r.deep_view();
                        let d = &entry.destinations[j];
                        match &d.state {
                            FileState::Absent => {
                                r.push(
                                    DiffReport::DestinationMissing {
                                        source: entry.source.clone(),
                                        destination: d.path.clone(),
                                    },
                                );
                                proof {
                                    assert(r.deep_view() =~~= r0 + spec_diff_dest(
                                        entry.deep_view().source,
                                        scv,
                                        ds[j as int],
                                    ));
                                }
                            },
                            FileState::Unreadable => {},
                            FileState::Present(c) => {
                                if !bytes_eq(c, sc) {
                                    r.push(
                                        DiffReport::ContentDiffers {
                                            source: entry.source.clone(),
                                            destination: d.path.clone(),
                                            source_size: sc.len(),
                                            dest_size: c.len(),
                                        },
                                    );
                                    proof {
                                        assert(r.deep_view() =~~= r0 + spec_diff_dest(
                                            entry.deep_view().source,
                                            scv,
                                            ds[j as int],
                                        ));
                                    }
                                }
                            },
                        }
                        j = j + 1;
                    }
                    proof {
                        assert(ds.take(ds.len() as int) =~= ds);
                        assert(r.deep_view() =~~= base + spec_diff_entry(obs[i as int]));
                    }
                },
            }
        }
        proof {
            let prev = obs.take(i as int);
            let cur = obs.take(i as int + 1);
            assert(cur.drop_last() =~= prev);
            assert(cur.last() == obs[i as int]);
            if !is_match {
                assert(r.deep_view() =~~= spec_check_diff(prev, fv)
                    + Seq::<DiffModel>::empty());
            }
        }
        i = i + 1;
    }
    proof {
        assert(obs.take(obs.len() as int) =~= obs);
    }
    r
}

} // verus!
