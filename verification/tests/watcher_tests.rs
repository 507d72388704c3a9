use mdman::config::Config;
use mdman::watcher::{
    count_outcomes, decide_dest, Classification, DestAction, DestObservation, EventKind,
    FileState, FileWatcher,
};

fn s(x: &str) -> String {
    x.to_string()
}

fn cfg(entries: &[(&str, &[&str])]) -> Config {
    let mut c = Config::new();
    for (src, dests) in entries {
        for d in *dests {
            c.add_mapping(s(src), s(d));
        }
    }
    c
}

fn obs(path: &str, state: FileState) -> DestObservation {
    DestObservation { path: s(path), state }
}

#[test]
fn new_watcher_builds_reverse_index() {
    let w = FileWatcher::new(cfg(&[("/a.md", &["/b.md", "/c.md"])]));
    assert_eq!(w.reverse_mappings.len(), 2);
    assert!(w.reverse_mappings.contains(&(s("/b.md"), s("/a.md"))));
    assert!(w.reverse_mappings.contains(&(s("/c.md"), s("/a.md"))));
    assert!(w.last_known_content.is_empty());
    assert!(w.recently_synced.is_empty());
}

#[test]
fn reverse_index_last_entry_wins_for_shared_destination() {
    let w = FileWatcher::new(cfg(&[("/a.md", &["/shared.md"]), ("/x.md", &["/shared.md"])]));
    assert_eq!(w.reverse_mappings, vec![(s("/shared.md"), s("/x.md"))]);
}

#[test]
fn classify_source_modify_is_propagate() {
    let w = FileWatcher::new(cfg(&[("/a.md", &["/b.md"])]));
    assert_eq!(w.classify(EventKind::Modify, &s("/a.md"), 0), Classification::Propagate);
    assert_eq!(w.classify(EventKind::Create, &s("/a.md"), 0), Classification::Propagate);
}

#[test]
fn classify_untracked_path_is_ignored() {
    let w = FileWatcher::new(cfg(&[("/a.md", &["/b.md"])]));
    assert_eq!(w.classify(EventKind::Modify, &s("/other.md"), 0), Classification::Ignore);
    assert_eq!(w.classify(EventKind::Other, &s("/a.md"), 0), Classification::Ignore);
}

#[test]
fn classify_source_remove_is_source_deleted() {
    let w = FileWatcher::new(cfg(&[("/a.md", &["/b.md"])]));
    assert_eq!(w.classify(EventKind::Remove, &s("/a.md"), 0), Classification::SourceDeleted);
    assert_eq!(w.classify(EventKind::Remove, &s("/b.md"), 0), Classification::Ignore);
}

#[test]
fn classify_destination_edit_warns_with_owner() {
    let w = FileWatcher::new(cfg(&[("/a.md", &["/b.md"])]));
    assert_eq!(
        w.classify(EventKind::Modify, &s("/b.md"), 0),
        Classification::Desync { source: s("/a.md") }
    );
}

#[test]
fn echo_window_suppresses_then_warns() {
    let mut w = FileWatcher::new(cfg(&[("/a.md", &["/b.md"])]));
    w.record_synced(s("/b.md"), 10_000);
    // within 2 seconds of the recorded write: an echo, no warning
    assert_eq!(w.classify(EventKind::Modify, &s("/b.md"), 10_000), Classification::SuppressedEcho);
    assert_eq!(w.classify(EventKind::Modify, &s("/b.md"), 11_999), Classification::SuppressedEcho);
    // from 2 seconds on: a desync warning
    assert_eq!(
        w.classify(EventKind::Modify, &s("/b.md"), 12_000),
        Classification::Desync { source: s("/a.md") }
    );
}

#[test]
fn purge_stale_drops_old_entries_only() {
    let mut w = FileWatcher::new(cfg(&[("/a.md", &["/b.md", "/c.md"])]));
    w.record_synced(s("/b.md"), 1_000);
    w.record_synced(s("/c.md"), 3_000);
    w.purge_stale(5_999);
    // /b.md is 4999 ms old: kept; at 6000 it turns 5000 ms old and goes
    assert_eq!(w.recently_synced, vec![(s("/b.md"), 1_000), (s("/c.md"), 3_000)]);
    w.purge_stale(6_000);
    assert_eq!(w.recently_synced, vec![(s("/c.md"), 3_000)]);
}

#[test]
fn decide_dest_matches_rules() {
    let old = b"old".to_vec();
    assert_eq!(decide_dest(Some(&old), &FileState::Absent), DestAction::Write);
    assert_eq!(decide_dest(Some(&old), &FileState::Unreadable), DestAction::SkipUnreadable);
    assert_eq!(decide_dest(Some(&old), &FileState::Present(b"old".to_vec())), DestAction::Write);
    assert_eq!(
        decide_dest(Some(&old), &FileState::Present(b"other".to_vec())),
        DestAction::SkipDesynced
    );
    // no snapshot yet: every readable destination counts as in sync
    assert_eq!(decide_dest(None, &FileState::Present(b"anything".to_vec())), DestAction::Write);
}

#[test]
fn propagation_scenario_updates_faithful_and_preserves_drift() {
    // Source /a.md with destinations /b.md and /c.md. B tracked A
    // faithfully, C drifted to "stale". After editing A, B is synced
    // and C is left out.
    let mut w = FileWatcher::new(cfg(&[("/a.md", &["/b.md", "/c.md"])]));
    w.record_snapshot(s("/a.md"), b"old content".to_vec());
    let observations = vec![
        obs("/b.md", FileState::Present(b"old content".to_vec())),
        obs("/c.md", FileState::Present(b"stale".to_vec())),
    ];
    let actions = w.plan_propagation(&s("/a.md"), &b"new content".to_vec(), &observations);
    assert_eq!(actions, vec![DestAction::Write, DestAction::SkipDesynced]);
    let (synced, desynced) = count_outcomes(&actions, &vec![true, true]);
    assert_eq!((synced, desynced), (1, 1));
}

#[test]
fn propagation_creates_absent_destination() {
    let mut w = FileWatcher::new(cfg(&[("/a.md", &["/b.md"])]));
    w.record_snapshot(s("/a.md"), b"v1".to_vec());
    let actions =
        w.plan_propagation(&s("/a.md"), &b"v2".to_vec(), &vec![obs("/b.md", FileState::Absent)]);
    assert_eq!(actions, vec![DestAction::Write]);
    // the surrounding process writes /b.md and reports it
    w.record_synced(s("/b.md"), 500);
    assert_eq!(w.recently_synced, vec![(s("/b.md"), 500)]);
}

#[test]
fn propagation_updates_snapshot_to_new_content() {
    let mut w = FileWatcher::new(cfg(&[("/a.md", &["/b.md"])]));
    w.record_snapshot(s("/a.md"), b"v1".to_vec());
    w.plan_propagation(&s("/a.md"), &b"v2".to_vec(), &vec![]);
    assert_eq!(w.get_snapshot(&s("/a.md")), Some(b"v2".to_vec()));
}

#[test]
fn propagation_twice_is_idempotent() {
    let mut w = FileWatcher::new(cfg(&[("/a.md", &["/b.md", "/c.md"])]));
    w.record_snapshot(s("/a.md"), b"v1".to_vec());
    let new = b"v2".to_vec();
    let first = w.plan_propagation(
        &s("/a.md"),
        &new,
        &vec![
            obs("/b.md", FileState::Present(b"v1".to_vec())),
            obs("/c.md", FileState::Present(b"stale".to_vec())),
        ],
    );
    assert_eq!(first, vec![DestAction::Write, DestAction::SkipDesynced]);
    // the process applies the writes; /b.md now holds v2, /c.md is untouched
    let second = w.plan_propagation(
        &s("/a.md"),
        &new,
        &vec![
            obs("/b.md", FileState::Present(b"v2".to_vec())),
            obs("/c.md", FileState::Present(b"stale".to_vec())),
        ],
    );
    // the same content is written again and no new destination drifts
    assert_eq!(second, vec![DestAction::Write, DestAction::SkipDesynced]);
}

#[test]
fn first_propagation_without_snapshot_overwrites_everything() {
    let mut w = FileWatcher::new(cfg(&[("/a.md", &["/b.md"])]));
    let actions = w.plan_propagation(
        &s("/a.md"),
        &b"v1".to_vec(),
        &vec![obs("/b.md", FileState::Present(b"whatever".to_vec()))],
    );
    assert_eq!(actions, vec![DestAction::Write]);
}

#[test]
fn retract_source_removes_entry_and_reverse_index() {
    let mut w = FileWatcher::new(cfg(&[("/a.md", &["/b.md", "/c.md"]), ("/x.md", &["/y.md"])]));
    let dests = w.retract_source(&s("/a.md")).unwrap();
    assert_eq!(dests, vec![s("/b.md"), s("/c.md")]);
    assert_eq!(w.config.mappings.len(), 1);
    assert_eq!(w.config.mappings[0].source, "/x.md");
    assert_eq!(w.reverse_mappings, vec![(s("/y.md"), s("/x.md"))]);
    // the former destinations are no longer watched for desync
    assert_eq!(w.classify(EventKind::Modify, &s("/b.md"), 0), Classification::Ignore);
    assert!(w.retract_source(&s("/a.md")).is_none());
}

#[test]
fn count_outcomes_counts_writes_and_skips() {
    let actions = vec![
        DestAction::Write,
        DestAction::Write,
        DestAction::SkipDesynced,
        DestAction::SkipUnreadable,
    ];
    // one write failed: it is neither synced nor desynced
    let (synced, desynced) = count_outcomes(&actions, &vec![true, false, true, true]);
    assert_eq!(synced, 1);
    assert_eq!(desynced, 1);
}

#[test]
fn set_config_rebuilds_reverse_index() {
    let mut w = FileWatcher::new(cfg(&[("/a.md", &["/b.md"])]));
    w.set_config(cfg(&[("/x.md", &["/y.md"])]));
    assert_eq!(w.reverse_mappings, vec![(s("/y.md"), s("/x.md"))]);
    assert_eq!(w.classify(EventKind::Modify, &s("/b.md"), 0), Classification::Ignore);
}

#[test]
fn bytes_eq_compares_contents() {
    assert!(mdman::bytes_eq(&b"abc".to_vec(), &b"abc".to_vec()));
    assert!(!mdman::bytes_eq(&b"abc".to_vec(), &b"abd".to_vec()));
    assert!(!mdman::bytes_eq(&b"abc".to_vec(), &b"ab".to_vec()));
    assert!(mdman::bytes_eq(&Vec::new(), &Vec::new()));
}
