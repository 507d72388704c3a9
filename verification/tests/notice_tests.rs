use mdman::notice::{desync_notice, source_deleted_notice, sync_notice, Urgency};
use mdman::numfmt::{u64_to_string, usize_to_string};

fn s(x: &str) -> String {
    x.to_string()
}

#[test]
fn decimal_rendering_is_exact() {
    assert_eq!(u64_to_string(0), "0");
    assert_eq!(u64_to_string(7), "7");
    assert_eq!(u64_to_string(10), "10");
    assert_eq!(u64_to_string(305), "305");
    assert_eq!(u64_to_string(18446744073709551615), "18446744073709551615");
    assert_eq!(usize_to_string(42), "42");
}

#[test]
fn sync_notice_for_one_synced_file() {
    let n = sync_notice(&s("notes.md"), 1, 0).unwrap();
    assert_eq!(n.summary, "mdman: notes.md");
    assert_eq!(n.body, "1 file has been synced");
    assert_eq!(n.urgency, Urgency::Normal);
    assert_eq!(n.auto_dismiss_millis, 3000);
}

#[test]
fn sync_notice_for_several_synced_files() {
    let n = sync_notice(&s("notes.md"), 3, 0).unwrap();
    assert_eq!(n.body, "3 files have been synced");
}

#[test]
fn sync_notice_reports_desynced_files_left_out() {
    let n = sync_notice(&s("notes.md"), 1, 1).unwrap();
    assert_eq!(n.body, "1 file has been synced, 1 desynced file left out");
    let n = sync_notice(&s("notes.md"), 2, 3).unwrap();
    assert_eq!(n.body, "2 files have been synced, 3 desynced files left out");
}

#[test]
fn sync_notice_with_only_desynced_files() {
    let n = sync_notice(&s("notes.md"), 0, 2).unwrap();
    assert_eq!(n.body, "2 desynced files left out");
}

#[test]
fn sync_notice_with_nothing_to_report_is_none() {
    assert!(sync_notice(&s("notes.md"), 0, 0).is_none());
}

#[test]
fn desync_notice_is_critical_and_persistent() {
    let n = desync_notice(&s("b.md"), &s("/home/u/a.md"));
    assert_eq!(n.summary, "mdman: Desync detected!");
    assert_eq!(
        n.body,
        "Warning: b.md was modified directly!\nSource: /home/u/a.md\nUse 'mdman sync' to re-sync from source or 'mdman diff' to see differences"
    );
    assert_eq!(n.urgency, Urgency::Critical);
    assert_eq!(n.auto_dismiss_millis, 0);
}

#[test]
fn source_deleted_notice_single_destination() {
    let n = source_deleted_notice(&s("a.md"), &vec![s("/d/b.md")]);
    assert_eq!(n.summary, "mdman: Source file deleted!");
    assert_eq!(n.body, "Source file a.md was deleted!\nDestination file remains at:\n/d/b.md");
    assert_eq!(n.urgency, Urgency::Critical);
    assert_eq!(n.auto_dismiss_millis, 0);
}

#[test]
fn source_deleted_notice_names_every_destination() {
    let dests = vec![s("/d/b.md"), s("/d/c.md"), s("/e/f.md")];
    let n = source_deleted_notice(&s("a.md"), &dests);
    assert_eq!(
        n.body,
        "Source file a.md was deleted!\n3 destination files remain at:\n  - /d/b.md\n  - /d/c.md\n  - /e/f.md"
    );
    for d in &dests {
        assert!(n.body.contains(d.as_str()));
    }
}
