use notes::paths::DataPaths;
use notes::store::{Index, NotesApp};
use sha2::Digest;

fn setup_app() -> NotesApp {
    let paths = DataPaths::new("home".to_string());
    NotesApp::from_parts(paths, Index::empty())
}

const EMPTY_HASH: &str = "e3b0c44298fc1c149afbf4c8996fb92427ae41e4649b934ca495991b7852b855";

fn sha256_hex_of(bytes: &[u8]) -> String {
    let digest = sha2::Sha256::digest(bytes);
    let mut out = String::new();
    for b in digest.iter() {
        out.push_str(&format!("{:02x}", b));
    }
    out
}

#[test]
fn new_creates_working_file_and_index() {
    let mut app = setup_app();
    let path = app.create_note(Some("new".to_string()), 100);
    assert_eq!(path, "home/files/new.md", "working file should exist");
    assert_eq!(app.paths().index, "home/index.json", "index.json should exist");
    assert_eq!(app.paths().versions, "home/versions", "versions directory should exist");
    let note = &app.index.notes[0];
    assert_eq!(note.versions.len(), 1);
    assert_eq!(note.versions[0].version, 1);
    assert_eq!(note.versions[0].path, "versions/new/0000001.md");
    assert_eq!(note.versions[0].hash, EMPTY_HASH);
    assert_eq!(note.working_hash.as_deref(), Some(EMPTY_HASH));
    assert_eq!(note.current_version, 1);
}

#[test]
fn open_snapshots_changes_and_updates_versions() {
    let mut app = setup_app();
    let _ = app.create_note(Some("Daily".to_string()), 100);
    let path = app
        .open_note("Daily", b"first update", 200)
        .expect("write working file");
    assert_eq!(path, "home/files/daily.md");
    let note = &app.index.notes[0];
    assert!(note.versions.len() >= 2, "expected at least 2 versions after update");
    assert_eq!(note.current_version, 2);
    assert_eq!(note.versions[1].hash, sha256_hex_of(b"first update"));
}

#[test]
fn list_versions_outputs_history() {
    let mut app = setup_app();
    let _ = app.create_note(Some("Meeting".to_string()), 100);
    let slug = app.resolve_slug("Meeting").expect("note should resolve");
    assert_eq!(slug, "meeting");
    let i = app.find_note("meeting").expect("note should be present");
    let note = &app.index.notes[i];
    let header = format!("Versions for {}:", note.title);
    assert_eq!(header, "Versions for Meeting:");
    assert_eq!(note.versions.len(), 1);
    assert_eq!(note.versions[0].version, 1);
}

#[test]
fn rollback_creates_new_version_and_updates_working_copy() {
    let mut app = setup_app();
    let _ = app.create_note(Some("Retro".to_string()), 100);
    // The editor writes "v2" into the working copy; opening promotes it.
    app.open_note("Retro", b"v2", 200).expect("open");
    assert_eq!(app.index.notes[0].current_version, 2);

    // Roll back to version 1: its blob was written empty at creation.
    let (target, blob_path) = app
        .rollback_target("retro", Some(1))
        .expect("rollback target");
    assert_eq!(target, 1);
    assert_eq!(blob_path, "versions/retro/0000001.md");
    let v1_content: &[u8] = b"";
    let working = app.apply_rollback("retro", v1_content, 300).expect("rollback");
    assert_eq!(working, "home/files/retro.md");

    let note = &app.index.notes[0];
    assert_eq!(note.versions.len(), 3);
    assert_eq!(note.current_version, 3);
    assert!(v1_content.is_empty(), "rollback should restore version 1 content");
    assert_eq!(note.versions[2].hash, EMPTY_HASH);
}

#[test]
fn search_finds_notes_by_content() {
    let mut app = setup_app();
    let _ = app.create_note(Some("Ideas".to_string()), 100);
    app.open_note("Ideas", b"alpha bravo", 200).expect("open");
    let contents = vec!["alpha bravo".to_string()];
    let hits = app.search("bravo", &contents);
    assert_eq!(hits, vec![0]);
    assert_eq!(app.index.notes[hits[0]].title, "Ideas");
    let misses = app.search("charlie", &contents);
    assert!(misses.is_empty());
}
