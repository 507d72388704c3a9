//! The guarantees of the reconciler, proved once and for all inputs.
//!
//! Each proof function here states one promise of the synchronizer
//! over the models that the executable contracts use: what propagation
//! does to absent, faithful and drifted destinations, how the echo
//! window decides between silence and a desync warning, and that
//! propagating the same change twice changes nothing further.

use vstd::prelude::*;

use crate::assoc::assoc_keys_unique;
use crate::config::{has_source, is_dest, owner_of, EntryModel};
use crate::watcher::{
    lemma_suppressed_recency, recency_of, spec_classify, spec_decide, spec_was_in_sync,
    within_window, ClassModel, DestAction, EventKind, FileStateModel, ECHO_WINDOW_MILLIS,
};

verus! {

/// What a destination holds after the planned action is carried out:
/// a write leaves the new content there, everything else leaves the
/// destination as it was.
pub open spec fn content_after(
    st: FileStateModel,
    action: DestAction,
    new: Seq<u8>,
) -> FileStateModel {
    match action {
        DestAction::Write => FileStateModel::Present(new),
        DestAction::SkipDesynced => st,
        DestAction::SkipUnreadable => st,
    }
}

/// A destination that did not exist before a change of its source is
/// created by propagation and ends up holding the source's new
/// content.
pub proof fn lemma_absent_destination_created(old_snap: Option<Seq<u8>>, new: Seq<u8>)
    ensures
        spec_decide(old_snap, FileStateModel::Absent) == DestAction::Write,
        content_after(
            FileStateModel::Absent,
            spec_decide(old_snap, FileStateModel::Absent),
            new,
        ) == FileStateModel::Present(new),
{
}

/// A destination whose content equaled the source's content before the
/// edit — or for whose source no snapshot had been taken yet — is
/// overwritten with the source's new content.
pub proof fn lemma_faithful_destination_updated(
    old_snap: Option<Seq<u8>>,
    dest: Seq<u8>,
    new: Seq<u8>,
)
    requires
        spec_was_in_sync(old_snap, dest),
    ensures
        spec_decide(old_snap, FileStateModel::Present(dest)) == DestAction::Write,
        content_after(
            FileStateModel::Present(dest),
            spec_decide(old_snap, FileStateModel::Present(dest)),
            new,
        ) == FileStateModel::Present(new),
{
}

/// A destination whose content differed from the source's pre-edit
/// snapshot is left untouched: its own content is preserved, never
/// overwritten.
pub proof fn lemma_drifted_destination_preserved(old_content: Seq<u8>, dest: Seq<u8>, new: Seq<u8>)
    requires
        old_content != dest,
    ensures
        spec_decide(Some(old_content), FileStateModel::Present(dest))
            == DestAction::SkipDesynced,
        content_after(
            FileStateModel::Present(dest),
            spec_decide(Some(old_content), FileStateModel::Present(dest)),
            new,
        ) == FileStateModel::Present(dest),
{
}

/// Propagation is idempotent: running it a second time with no
/// intervening source change (so the snapshot now equals the new
/// content) leaves every destination exactly as the first run left
/// it, and classifies no destination as desynced that the first run
/// did not.
pub proof fn lemma_propagation_idempotent(
    old_snap: Option<Seq<u8>>,
    st: FileStateModel,
    new: Seq<u8>,
)
    ensures
        ({
            let first = spec_decide(old_snap, st);
            let after_first = content_after(st, first, new);
            let second = spec_decide(Some(new), after_first);
            let after_second = content_after(after_first, second, new);
            &&& after_second == after_first
            &&& (second == DestAction::SkipDesynced ==> first == DestAction::SkipDesynced)
        }),
{
}

/// The echo window: an event on a destination whose own write was
/// recorded less than the window ago is suppressed; once the window
/// has passed, the same event is a desync warning naming the owning
/// source.
pub proof fn lemma_echo_window(
    m: Seq<EntryModel>,
    recents: Seq<(String, u64)>,
    kind: EventKind,
    path: Seq<char>,
    t: u64,
    now: u64,
)
    requires
        assoc_keys_unique(recents),
        kind == EventKind::Create || kind == EventKind::Modify,
        !has_source(m, path),
        is_dest(m, path),
        recency_of(recents, path) == Some(t),
        t <= now,
    ensures
        now - t < ECHO_WINDOW_MILLIS ==> spec_classify(m, recents, kind, path, now)
            == ClassModel::SuppressedEcho,
        now - t >= ECHO_WINDOW_MILLIS ==> spec_classify(m, recents, kind, path, now)
            == (ClassModel::Desync { source: owner_of(m, path) }),
{
    lemma_suppressed_recency(recents, path, now);
}

} // verus!
