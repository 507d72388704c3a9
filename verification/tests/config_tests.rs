use mdman::config::{Config, MappingEntry};

fn s(x: &str) -> String {
    x.to_string()
}

fn cfg(entries: &[(&str, &[&str])]) -> Config {
    let mut c = Config::new();
    for (src, dests) in entries {
        for d in *dests {
            c.add_mapping(s(src), s(d));
        }
    }
    c
}

#[test]
fn new_config_is_empty() {
    let c = Config::new();
    assert_eq!(c.mappings.len(), 0);
    assert!(c.list_mappings().is_empty());
}

#[test]
fn add_mapping_creates_entry() {
    let mut c = Config::new();
    c.add_mapping(s("/a.md"), s("/b.md"));
    assert_eq!(c.mappings.len(), 1);
    assert_eq!(c.mappings[0].source, "/a.md");
    assert_eq!(c.mappings[0].destinations, vec![s("/b.md")]);
}

#[test]
fn add_mapping_appends_to_existing_source() {
    let mut c = Config::new();
    c.add_mapping(s("/a.md"), s("/b.md"));
    c.add_mapping(s("/a.md"), s("/c.md"));
    assert_eq!(c.mappings.len(), 1);
    assert_eq!(c.mappings[0].destinations, vec![s("/b.md"), s("/c.md")]);
}

#[test]
fn add_mapping_keeps_duplicate_destinations() {
    let mut c = Config::new();
    c.add_mapping(s("/a.md"), s("/b.md"));
    c.add_mapping(s("/a.md"), s("/b.md"));
    assert_eq!(c.mappings[0].destinations, vec![s("/b.md"), s("/b.md")]);
}

#[test]
fn find_by_path_returns_first_entry() {
    let c = cfg(&[("/a.md", &["/b.md", "/c.md"]), ("/x.md", &["/y.md"])]);
    let (src, dests) = c.find_by_path(&s("/a.md")).unwrap();
    assert_eq!(src, "/a.md");
    assert_eq!(dests, vec![s("/b.md"), s("/c.md")]);
    assert!(c.find_by_path(&s("/b.md")).is_none());
    assert!(c.find_by_path(&s("/missing.md")).is_none());
}

#[test]
fn list_mappings_returns_everything_in_order() {
    let c = cfg(&[("/a.md", &["/b.md"]), ("/x.md", &["/y.md", "/z.md"])]);
    let all = c.list_mappings();
    assert_eq!(all.len(), 2);
    assert_eq!(all[0].0, "/a.md");
    assert_eq!(all[0].1, vec![s("/b.md")]);
    assert_eq!(all[1].0, "/x.md");
    assert_eq!(all[1].1, vec![s("/y.md"), s("/z.md")]);
}

#[test]
fn remove_mapping_removes_destination_everywhere() {
    let mut c = cfg(&[("/a.md", &["/b.md", "/shared.md"]), ("/x.md", &["/shared.md"])]);
    let removed = c.remove_mapping(&s("/shared.md"));
    assert!(removed);
    // the second entry lost its only destination and is dropped
    assert_eq!(c.mappings.len(), 1);
    assert_eq!(c.mappings[0].source, "/a.md");
    assert_eq!(c.mappings[0].destinations, vec![s("/b.md")]);
}

#[test]
fn remove_mapping_missing_destination_reports_false() {
    let mut c = cfg(&[("/a.md", &["/b.md"])]);
    let removed = c.remove_mapping(&s("/nope.md"));
    assert!(!removed);
    assert_eq!(c.mappings.len(), 1);
}

#[test]
fn remove_mapping_drops_entries_left_empty() {
    let mut c = cfg(&[("/a.md", &["/b.md", "/b.md"])]);
    let removed = c.remove_mapping(&s("/b.md"));
    assert!(removed);
    assert!(c.mappings.is_empty());
}

#[test]
fn remove_source_drops_whole_entry() {
    let mut c = cfg(&[("/a.md", &["/b.md"]), ("/x.md", &["/y.md"])]);
    assert!(c.remove_source(&s("/a.md")));
    assert_eq!(c.mappings.len(), 1);
    assert_eq!(c.mappings[0].source, "/x.md");
    assert!(!c.remove_source(&s("/a.md")));
}

#[test]
fn contains_source_checks_sources_only() {
    let c = cfg(&[("/a.md", &["/b.md"])]);
    assert!(c.contains_source(&s("/a.md")));
    assert!(!c.contains_source(&s("/b.md")));
}

#[test]
fn is_tracked_sees_sources_and_destinations() {
    let c = cfg(&[("/a.md", &["/b.md"])]);
    assert!(c.is_tracked(&s("/a.md")));
    assert!(c.is_tracked(&s("/b.md")));
    assert!(!c.is_tracked(&s("/c.md")));
}

#[test]
fn mapping_entry_fields_are_plain() {
    let e = MappingEntry { source: s("/a.md"), destinations: vec![s("/b.md")] };
    assert_eq!(e.source, "/a.md");
    assert_eq!(e.destinations.len(), 1);
}
