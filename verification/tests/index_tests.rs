//! Tests of the application index: precedence, shadowing, promotion,
//! incremental events, and rebuild idempotence.

use datacube::index::{
    AppEntry, ApplicationIndex, Candidate, FsEvent, Origin, RawEntry, SourceDir, make_entry,
};

fn raw_named(name: &str) -> RawEntry {
    RawEntry {
        no_display: false,
        name: Some(name.to_string()),
        generic_name: None,
        comment: None,
        exec_cmd: Some(format!("{} --run", name)),
        icon: Some("icon".to_string()),
        keywords: Vec::new(),
        terminal: false,
    }
}

fn two_dirs() -> Vec<SourceDir> {
    vec![
        SourceDir { path: "/high".to_string(), origin: Origin::Native },
        SourceDir { path: "/low".to_string(), origin: Origin::Sandboxed },
    ]
}

fn names_of(snapshot: &Vec<AppEntry>) -> Vec<String> {
    snapshot.iter().map(|e| e.name.clone()).collect()
}

#[test]
fn higher_priority_directory_wins() {
    let mut index = ApplicationIndex::new();
    let files = vec![
        Candidate { path: "/high/app.desktop".to_string(), raw: raw_named("Tool A") },
        Candidate { path: "/low/app.desktop".to_string(), raw: raw_named("Tool B") },
    ];
    index.load(two_dirs(), files);
    let snap = index.snapshot();
    assert_eq!(snap.len(), 1);
    assert_eq!(snap[0].name, "Tool A");
    assert_eq!(snap[0].id, "app");
    assert_eq!(snap[0].priority, 0);
    assert_eq!(snap[0].origin, Origin::Native);
}

#[test]
fn load_order_does_not_matter_for_precedence() {
    let mut index = ApplicationIndex::new();
    let files = vec![
        Candidate { path: "/low/app.desktop".to_string(), raw: raw_named("Tool B") },
        Candidate { path: "/high/app.desktop".to_string(), raw: raw_named("Tool A") },
    ];
    index.load(two_dirs(), files);
    let snap = index.snapshot();
    assert_eq!(snap.len(), 1);
    assert_eq!(snap[0].name, "Tool A");
}

#[test]
fn removal_promotes_shadowed_sibling() {
    let mut index = ApplicationIndex::new();
    let files = vec![
        Candidate { path: "/high/app.desktop".to_string(), raw: raw_named("Tool A") },
        Candidate { path: "/low/app.desktop".to_string(), raw: raw_named("Tool B") },
    ];
    index.load(two_dirs(), files);
    index.apply_event(FsEvent::Removed { path: "/high/app.desktop".to_string() }, None);
    let snap = index.snapshot();
    assert_eq!(snap.len(), 1);
    assert_eq!(snap[0].name, "Tool B");
    assert_eq!(snap[0].priority, 1);
    assert_eq!(snap[0].origin, Origin::Sandboxed);
}

#[test]
fn removal_of_last_entry_drops_identifier() {
    let mut index = ApplicationIndex::new();
    let files = vec![
        Candidate { path: "/high/app.desktop".to_string(), raw: raw_named("Tool A") },
    ];
    index.load(two_dirs(), files);
    index.apply_event(FsEvent::Removed { path: "/high/app.desktop".to_string() }, None);
    assert_eq!(index.snapshot().len(), 0);
}

#[test]
fn snapshot_never_duplicates_identifiers() {
    let mut index = ApplicationIndex::new();
    let files = vec![
        Candidate { path: "/high/app.desktop".to_string(), raw: raw_named("Tool A") },
        Candidate { path: "/low/app.desktop".to_string(), raw: raw_named("Tool B") },
        Candidate { path: "/high/other.desktop".to_string(), raw: raw_named("Other") },
    ];
    index.load(two_dirs(), files);
    let snap = index.snapshot();
    assert_eq!(snap.len(), 2);
    let mut ids: Vec<String> = snap.iter().map(|e| e.id.clone()).collect();
    ids.sort();
    ids.dedup();
    assert_eq!(ids.len(), snap.len());
}

#[test]
fn reload_with_unchanged_inputs_is_identical() {
    let build = || {
        let files = vec![
            Candidate { path: "/high/app.desktop".to_string(), raw: raw_named("Tool A") },
            Candidate { path: "/low/app.desktop".to_string(), raw: raw_named("Tool B") },
            Candidate { path: "/low/extra.desktop".to_string(), raw: raw_named("Extra") },
        ];
        let mut index = ApplicationIndex::new();
        index.load(two_dirs(), files);
        index
    };
    let first = build();
    let second = build();
    let a = first.snapshot();
    let b = second.snapshot();
    assert_eq!(names_of(&a), names_of(&b));
    let ids_a: Vec<String> = a.iter().map(|e| e.id.clone()).collect();
    let ids_b: Vec<String> = b.iter().map(|e| e.id.clone()).collect();
    assert_eq!(ids_a, ids_b);
}

#[test]
fn created_event_with_better_priority_unseats_active() {
    let mut index = ApplicationIndex::new();
    let files = vec![
        Candidate { path: "/low/app.desktop".to_string(), raw: raw_named("Tool B") },
    ];
    index.load(two_dirs(), files);
    assert_eq!(names_of(&index.snapshot()), vec!["Tool B".to_string()]);
    index.apply_event(
        FsEvent::Created { path: "/high/app.desktop".to_string() },
        Some(raw_named("Tool A")),
    );
    assert_eq!(names_of(&index.snapshot()), vec!["Tool A".to_string()]);
    // The unseated entry is still recoverable by a later promotion.
    index.apply_event(FsEvent::Removed { path: "/high/app.desktop".to_string() }, None);
    assert_eq!(names_of(&index.snapshot()), vec!["Tool B".to_string()]);
}

#[test]
fn created_event_with_worse_priority_only_shadows() {
    let mut index = ApplicationIndex::new();
    let files = vec![
        Candidate { path: "/high/app.desktop".to_string(), raw: raw_named("Tool A") },
    ];
    index.load(two_dirs(), files);
    index.apply_event(
        FsEvent::Created { path: "/low/app.desktop".to_string() },
        Some(raw_named("Tool B")),
    );
    assert_eq!(names_of(&index.snapshot()), vec!["Tool A".to_string()]);
}

#[test]
fn modified_event_replaces_in_place() {
    let mut index = ApplicationIndex::new();
    let files = vec![
        Candidate { path: "/high/app.desktop".to_string(), raw: raw_named("Tool A") },
    ];
    index.load(two_dirs(), files);
    index.apply_event(
        FsEvent::Modified { path: "/high/app.desktop".to_string() },
        Some(raw_named("Tool A2")),
    );
    assert_eq!(names_of(&index.snapshot()), vec!["Tool A2".to_string()]);
}

#[test]
fn modified_event_that_hides_the_file_removes_it() {
    let mut index = ApplicationIndex::new();
    let files = vec![
        Candidate { path: "/high/app.desktop".to_string(), raw: raw_named("Tool A") },
        Candidate { path: "/low/app.desktop".to_string(), raw: raw_named("Tool B") },
    ];
    index.load(two_dirs(), files);
    let mut hidden = raw_named("Tool A");
    hidden.no_display = true;
    index.apply_event(FsEvent::Modified { path: "/high/app.desktop".to_string() }, Some(hidden));
    assert_eq!(names_of(&index.snapshot()), vec!["Tool B".to_string()]);
}

#[test]
fn rename_pair_moves_an_entry() {
    let mut index = ApplicationIndex::new();
    let files = vec![
        Candidate { path: "/high/app.desktop".to_string(), raw: raw_named("Tool A") },
    ];
    index.load(two_dirs(), files);
    index.apply_event(
        FsEvent::RenamedBoth {
            from: "/high/app.desktop".to_string(),
            to: "/high/renamed.desktop".to_string(),
        },
        Some(raw_named("Tool A")),
    );
    let snap = index.snapshot();
    assert_eq!(snap.len(), 1);
    assert_eq!(snap[0].id, "renamed");
    assert_eq!(snap[0].path, "/high/renamed.desktop");
}

#[test]
fn unusable_files_are_dropped() {
    let dirs = two_dirs();
    let mut hidden = raw_named("Hidden");
    hidden.no_display = true;
    let mut nameless = raw_named("Nameless");
    nameless.name = None;
    let mut no_exec = raw_named("NoExec");
    no_exec.exec_cmd = None;
    assert!(make_entry(&dirs, "/high/a.desktop".to_string(), hidden).is_none());
    assert!(make_entry(&dirs, "/high/b.desktop".to_string(), nameless).is_none());
    assert!(make_entry(&dirs, "/high/c.desktop".to_string(), no_exec).is_none());
    assert!(make_entry(&dirs, "/high/d.desktop".to_string(), raw_named("Fine")).is_some());
}

#[test]
fn entry_outside_watched_directories_gets_worst_priority() {
    let dirs = two_dirs();
    let entry = make_entry(&dirs, "/elsewhere/x.desktop".to_string(), raw_named("X")).unwrap();
    assert_eq!(entry.priority, 2);
    assert_eq!(entry.origin, Origin::Native);
}

#[test]
fn missing_icon_falls_back_to_default() {
    let dirs = two_dirs();
    let mut raw = raw_named("X");
    raw.icon = None;
    let entry = make_entry(&dirs, "/high/x.desktop".to_string(), raw).unwrap();
    assert_eq!(entry.icon, "application-x-executable");
}

#[test]
fn point_lookup_finds_active_entries() {
    let mut index = ApplicationIndex::new();
    let files = vec![
        Candidate { path: "/high/app.desktop".to_string(), raw: raw_named("Tool A") },
    ];
    index.load(two_dirs(), files);
    assert_eq!(index.len(), 1);
    assert_eq!(index.get("app").map(|e| e.name.clone()), Some("Tool A".to_string()));
    assert!(index.get("missing").is_none());
}

#[test]
fn watched_directories_are_recognized() {
    let mut index = ApplicationIndex::new();
    index.load(two_dirs(), Vec::new());
    assert!(index.is_watched_dir("/high"));
    assert!(index.is_watched_dir("/low"));
    assert!(!index.is_watched_dir("/elsewhere"));
}
