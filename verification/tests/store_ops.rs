use notes::errors::NoteError;
use notes::paths::DataPaths;
use notes::store::{Index, NoteMeta, NotesApp, VersionMeta};

fn setup_app() -> NotesApp {
    let paths = DataPaths::new("home".to_string());
    NotesApp::from_parts(paths, Index::empty())
}

fn note_with_slug(title: &str, slug: &str) -> NoteMeta {
    NoteMeta {
        title: title.to_string(),
        slug: slug.to_string(),
        created_at: 1,
        updated_at: 1,
        current_version: 1,
        versions: vec![VersionMeta {
            version: 1,
            path: format!("versions/{}/0000001.md", slug),
            hash: "00".repeat(32),
            created_at: 1,
        }],
        working_hash: None,
    }
}

#[test]
fn snapshot_is_idempotent_without_edits() {
    let mut app = setup_app();
    let _ = app.create_note(Some("Log".to_string()), 10);
    let first = app.snapshot_if_changed("log", b"body", 20).expect("snapshot");
    assert!(first);
    assert_eq!(app.index.notes[0].versions.len(), 2);
    let second = app.snapshot_if_changed("log", b"body", 30).expect("snapshot");
    assert!(!second, "second pass over unchanged content must report unchanged");
    assert_eq!(app.index.notes[0].versions.len(), 2);
    assert_eq!(app.index.notes[0].updated_at, 20);
}

#[test]
fn snapshot_unknown_slug_is_not_found() {
    let mut app = setup_app();
    let err = app.snapshot_if_changed("ghost", b"x", 5).unwrap_err();
    assert!(matches!(err, NoteError::NotFound));
}

#[test]
fn slug_collisions_get_numeric_suffixes() {
    let mut app = setup_app();
    let p1 = app.create_note(Some("Daily".to_string()), 1);
    let p2 = app.create_note(Some("Daily".to_string()), 2);
    let p3 = app.create_note(Some("Daily".to_string()), 3);
    assert_eq!(p1, "home/files/daily.md");
    assert_eq!(p2, "home/files/daily-2.md");
    assert_eq!(p3, "home/files/daily-3.md");
}

#[test]
fn resolve_matches_title_case_insensitively() {
    let mut app = setup_app();
    let _ = app.create_note(Some("Shopping List".to_string()), 1);
    assert_eq!(app.resolve_slug("shopping-list").as_deref(), Some("shopping-list"));
    assert_eq!(app.resolve_slug("SHOPPING LIST").as_deref(), Some("shopping-list"));
    assert_eq!(app.resolve_slug("nothing").as_deref(), None);
}

#[test]
fn resolution_prefers_title_over_ci_slug() {
    // An earlier note matches the identifier only by case-insensitive
    // slug; a later one matches by case-insensitive title. Title equality
    // takes precedence, regardless of index order.
    let index = Index {
        notes: vec![
            note_with_slug("Other", "team"),
            note_with_slug("Team", "weekly-sync"),
        ],
    };
    assert!(index.check_wf());
    let app = NotesApp::from_parts(DataPaths::new("home".to_string()), index);
    assert_eq!(app.resolve_slug("TEAM").as_deref(), Some("weekly-sync"));
    // An exact slug match still wins over everything.
    assert_eq!(app.resolve_slug("team").as_deref(), Some("team"));
    // With no title match, the case-insensitive slug match is taken.
    assert_eq!(app.resolve_slug("WEEKLY-SYNC").as_deref(), Some("weekly-sync"));
}

#[test]
fn delete_removes_unique_match() {
    let mut app = setup_app();
    let _ = app.create_note(Some("Keep".to_string()), 1);
    let _ = app.create_note(Some("Drop".to_string()), 2);
    let removed = app.delete_note_by_title("drop").expect("delete");
    assert_eq!(removed, "drop");
    assert_eq!(app.index.notes.len(), 1);
    assert_eq!(app.index.notes[0].slug, "keep");
    let err = app.delete_note_by_title("drop").unwrap_err();
    assert!(matches!(err, NoteError::NotFound));
}

#[test]
fn delete_ambiguous_identifier_deletes_nothing() {
    // Two notes whose slugs differ only in case: deleting by the shared
    // lower-cased form must fail and leave the store untouched.
    let index = Index { notes: vec![note_with_slug("One", "Dup"), note_with_slug("Two", "dup")] };
    assert!(index.check_wf());
    let mut app = NotesApp::from_parts(DataPaths::new("home".to_string()), index);
    let err = app.delete_note_by_title("dup").unwrap_err();
    assert!(matches!(err, NoteError::Ambiguous));
    assert_eq!(app.index.notes.len(), 2);
}

#[test]
fn rollback_below_version_one_is_invalid() {
    let mut app = setup_app();
    let _ = app.create_note(Some("Fresh".to_string()), 1);
    let err = app.rollback_target("fresh", None).unwrap_err();
    assert!(matches!(err, NoteError::InvalidOperation));
    let err = app.rollback_target("fresh", Some(0)).unwrap_err();
    assert!(matches!(err, NoteError::InvalidOperation));
    let err = app.rollback_target("fresh", Some(9)).unwrap_err();
    assert!(matches!(err, NoteError::NotFound));
    let err = app.rollback_target("ghost", Some(1)).unwrap_err();
    assert!(matches!(err, NoteError::NotFound));
}

#[test]
fn snapshot_all_reports_changed_slugs_in_order() {
    let mut app = setup_app();
    let _ = app.create_note(Some("Alpha".to_string()), 1);
    let _ = app.create_note(Some("Beta".to_string()), 2);
    let contents = vec![b"".to_vec(), b"changed".to_vec()];
    let updated = app.snapshot_all_changes(&contents, 50);
    assert_eq!(updated, vec!["beta".to_string()]);
    assert_eq!(app.index.notes[0].versions.len(), 1);
    assert_eq!(app.index.notes[1].versions.len(), 2);
}

#[test]
fn sorted_order_is_by_lowercased_title() {
    let mut app = setup_app();
    let _ = app.create_note(Some("banana".to_string()), 1);
    let _ = app.create_note(Some("Apple".to_string()), 2);
    let _ = app.create_note(Some("cherry".to_string()), 3);
    let order = app.sorted_order();
    let titles: Vec<&str> = order.iter().map(|&i| app.index.notes[i].title.as_str()).collect();
    assert_eq!(titles, vec!["Apple", "banana", "cherry"]);
    let by_slug = app.sorted_by_slug();
    let slugs: Vec<&str> = by_slug.iter().map(|&i| app.index.notes[i].slug.as_str()).collect();
    assert_eq!(slugs, vec!["apple", "banana", "cherry"]);
}

#[test]
fn check_wf_rejects_malformed_indexes() {
    let mut bad = note_with_slug("Bad", "bad");
    bad.current_version = 2;
    let index = Index { notes: vec![bad] };
    assert!(!index.check_wf());

    let index = Index { notes: vec![note_with_slug("A", "same"), note_with_slug("B", "same")] };
    assert!(!index.check_wf());

    let mut gap = note_with_slug("Gap", "gap");
    gap.versions[0].version = 3;
    let index = Index { notes: vec![gap] };
    assert!(!index.check_wf());

    let index = Index { notes: vec![note_with_slug("Ok", "ok")] };
    assert!(index.check_wf());
}

#[test]
fn current_version_path_points_at_latest_blob() {
    let mut app = setup_app();
    let _ = app.create_note(Some("Path".to_string()), 1);
    let _ = app.snapshot_if_changed("path", b"two", 2).expect("snapshot");
    let i = app.find_note("path").expect("present");
    assert_eq!(app.current_version_path(i), "home/versions/path/0000002.md");
}

#[test]
fn default_title_comes_from_timestamp() {
    assert_eq!(notes::clock::timestamp_title(0), "note-19700101-000000");
    let now = notes::clock::now_unix();
    assert!(now > 0 && now < notes::clock::MAX_TIMESTAMP);
    let mut app = setup_app();
    let path = app.create_note(None, 0);
    assert_eq!(path, "home/files/note-19700101-000000.md");
}
