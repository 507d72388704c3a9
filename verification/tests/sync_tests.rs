use mdman::sync::{
    check_diff, plan_full_sync, tally_sync, DiffReport, EntryObservation, SourceObservation,
};
use mdman::watcher::{DestObservation, FileState};

fn s(x: &str) -> String {
    x.to_string()
}

fn dobs(path: &str, state: FileState) -> DestObservation {
    DestObservation { path: s(path), state }
}

#[test]
fn check_diff_reports_each_kind() {
    let entries = vec![
        EntryObservation {
            source: s("/a.md"),
            state: FileState::Present(b"abc".to_vec()),
            destinations: vec![
                dobs("/same.md", FileState::Present(b"abc".to_vec())),
                dobs("/gone.md", FileState::Absent),
                dobs("/diff.md", FileState::Present(b"wxyz".to_vec())),
            ],
        },
        EntryObservation { source: s("/missing.md"), state: FileState::Absent, destinations: vec![] },
    ];
    let reports = check_diff(&entries, None);
    assert_eq!(
        reports,
        vec![
            DiffReport::DestinationMissing { source: s("/a.md"), destination: s("/gone.md") },
            DiffReport::ContentDiffers {
                source: s("/a.md"),
                destination: s("/diff.md"),
                source_size: 3,
                dest_size: 4,
            },
            DiffReport::SourceMissing { source: s("/missing.md") },
        ]
    );
}

#[test]
fn check_diff_in_sync_set_reports_nothing() {
    let entries = vec![EntryObservation {
        source: s("/a.md"),
        state: FileState::Present(b"abc".to_vec()),
        destinations: vec![dobs("/b.md", FileState::Present(b"abc".to_vec()))],
    }];
    assert!(check_diff(&entries, None).is_empty());
}

#[test]
fn check_diff_skips_unreadable_files() {
    let entries = vec![
        EntryObservation { source: s("/a.md"), state: FileState::Unreadable, destinations: vec![] },
        EntryObservation {
            source: s("/x.md"),
            state: FileState::Present(b"x".to_vec()),
            destinations: vec![dobs("/y.md", FileState::Unreadable)],
        },
    ];
    assert!(check_diff(&entries, None).is_empty());
}

#[test]
fn check_diff_filters_by_requested_path() {
    let entries = vec![
        EntryObservation {
            source: s("/a.md"),
            state: FileState::Present(b"a".to_vec()),
            destinations: vec![dobs("/b.md", FileState::Absent)],
        },
        EntryObservation {
            source: s("/x.md"),
            state: FileState::Present(b"x".to_vec()),
            destinations: vec![dobs("/y.md", FileState::Absent)],
        },
    ];
    // the filter matches as a source
    let r = check_diff(&entries, Some(&s("/a.md")));
    assert_eq!(r.len(), 1);
    assert_eq!(r[0], DiffReport::DestinationMissing { source: s("/a.md"), destination: s("/b.md") });
    // and as a destination
    let r = check_diff(&entries, Some(&s("/y.md")));
    assert_eq!(r.len(), 1);
    assert_eq!(r[0], DiffReport::DestinationMissing { source: s("/x.md"), destination: s("/y.md") });
    // a path nobody names matches nothing
    assert!(check_diff(&entries, Some(&s("/nope.md"))).is_empty());
}

#[test]
fn plan_full_sync_writes_everything_readable() {
    let observations = vec![
        SourceObservation {
            source: s("/a.md"),
            state: FileState::Present(b"abc".to_vec()),
            destinations: vec![s("/b.md"), s("/c.md")],
        },
        SourceObservation { source: s("/gone.md"), state: FileState::Absent, destinations: vec![s("/d.md")] },
        SourceObservation { source: s("/locked.md"), state: FileState::Unreadable, destinations: vec![] },
    ];
    let (writes, errors) = plan_full_sync(&observations);
    assert_eq!(errors, 2);
    assert_eq!(writes.len(), 2);
    assert_eq!(writes[0].destination, "/b.md");
    assert_eq!(writes[0].content, b"abc".to_vec());
    assert_eq!(writes[1].destination, "/c.md");
    assert_eq!(writes[1].content, b"abc".to_vec());
}

#[test]
fn tally_sync_counts_successes_and_failures() {
    let stats = tally_sync(&vec![true, false, true], 2);
    assert_eq!(stats.synced_count, 2);
    assert_eq!(stats.error_count, 3);
    let stats = tally_sync(&vec![], 0);
    assert_eq!(stats.synced_count, 0);
    assert_eq!(stats.error_count, 0);
}
