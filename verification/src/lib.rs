//! Verified core of a file-mirroring manager.
//!
//! The library keeps a mapping from source paths to destination paths,
//! derives a reverse index from it, and decides for every filesystem
//! event what the synchronizer must do: propagate a source change to its
//! destinations, warn about an independent edit of a destination, or
//! retract the tracking of a deleted source. All decisions are made over
//! plain values (paths as strings, file contents as byte vectors,
//! instants as milliseconds); the surrounding process performs the actual
//! reads, writes and notifications.

pub mod assoc;
pub mod config;
pub mod laws;
pub mod notice;
pub mod numfmt;
pub mod sync;
pub mod watcher;

use vstd::prelude::*;

verus! {

/// True iff the two byte sequences hold the same bytes.
pub fn bytes_eq(a: &Vec<u8>, b: &Vec<u8>) -> (r: bool)
    ensures
        r <==> a@ == b@,
{
    if a.len() != b.len() {
        return false;
    }
    let mut i: usize = 0;
    while i < a.len()
        invariant
            0 <= i <= a.len(),
            a.len() == b.len(),
            forall|j: int| 0 <= j < i ==> a@[j] == b@[j],
        decreases a.len() - i,
    {
        if a[i] != b[i] {
            return false;
        }
        i = i + 1;
    }
    proof {
        assert(a@ =~= b@);
    }
    true
}

} // verus!
