use notes::completions::{completion_script, CompletionShell};
use notes::hash::hash_bytes;
use notes::numfmt::{format_hex_pad, format_i64, format_u64, format_u64_pad};
use notes::paths::{version_rel_path, DataPaths};
use notes::slug::slugify;
use notes::text::{str_contains, str_eq, str_lex_le, str_starts_with, trim};

#[test]
fn slugs_keep_lowercase_alphanumerics_and_collapse_separators() {
    assert_eq!(slugify("Daily"), "daily");
    assert_eq!(slugify("Hello World"), "hello-world");
    assert_eq!(slugify("A_B-C"), "a-b-c");
    assert_eq!(slugify("  spaces   everywhere  "), "-spaces-everywhere");
    assert_eq!(slugify("Trailing-"), "trailing");
    assert_eq!(slugify(""), "note");
    assert_eq!(slugify("--"), "note");
    assert_eq!(slugify("!!!"), "note");
    assert_eq!(slugify("Caf\u{e9} Notes"), "caf-notes");
}

#[test]
fn content_hashing_matches_sha256() {
    assert_eq!(
        hash_bytes(b""),
        "e3b0c44298fc1c149afbf4c8996fb92427ae41e4649b934ca495991b7852b855"
    );
    assert_eq!(
        hash_bytes(b"abc"),
        "ba7816bf8f01cfea414140de5dae2223b00361a396177a9cb410ff61f20015ad"
    );
}

#[test]
fn numbers_render_with_requested_padding() {
    assert_eq!(format_u64(0), "0");
    assert_eq!(format_u64(90210), "90210");
    assert_eq!(format_u64_pad(7, 7), "0000007");
    assert_eq!(format_u64_pad(1234567890, 7), "1234567890");
    assert_eq!(format_i64(-5), "-5");
    assert_eq!(format_i64(i64::MIN), "-9223372036854775808");
    assert_eq!(format_hex_pad(0xdead, 8), "0000dead");
    assert_eq!(format_hex_pad(0xdeadbeef, 4), "beef");
}

#[test]
fn version_blob_paths_use_seven_digit_names() {
    assert_eq!(version_rel_path("daily", 1), "versions/daily/0000001.md");
    assert_eq!(version_rel_path("daily", 1234567), "versions/daily/1234567.md");
}

#[test]
fn data_paths_lay_out_the_root() {
    let p = DataPaths::new("/data/root".to_string());
    assert_eq!(p.index, "/data/root/index.json");
    assert_eq!(p.versions, "/data/root/versions");
    assert_eq!(p.files, "/data/root/files");
    assert_eq!(p.daemon_pid, "/data/root/daemon.pid");
    assert_eq!(p.daemon_log, "/data/root/daemon.log");
    assert_eq!(p.working_file("daily"), "/data/root/files/daily.md");
    assert_eq!(p.journal_index(), "/data/root/journal/index.json");
    assert_eq!(
        p.daily_file(notes::dates::Date { year: 2024, month: 5, day: 1 }),
        "/data/root/journal/daily/2024-05-01.md"
    );
    assert_eq!(p.weekly_file(2024, 5), "/data/root/journal/weekly/2024-W05.md");
    assert_eq!(p.monthly_file(2024, 5), "/data/root/journal/monthly/2024-05.md");
}

#[test]
fn text_helpers_match_std_behaviour() {
    assert!(str_eq("same", "same"));
    assert!(!str_eq("same", "Same"));
    assert_eq!(trim("  padded \n"), "padded");
    assert!(str_contains("alpha bravo", "bravo"));
    assert!(!str_contains("alpha bravo", "charlie"));
    assert!(str_contains("anything", ""));
    assert!(str_starts_with("deadbeef", "dead"));
    assert!(!str_starts_with("dead", "deadbeef"));
    assert!(str_lex_le("apple", "banana"));
    assert!(str_lex_le("app", "apple"));
    assert!(!str_lex_le("banana", "apple"));
}

#[test]
fn completion_scripts_exist_for_each_shell() {
    assert!(completion_script(CompletionShell::Bash).contains("complete -F _notes_complete notes"));
    assert!(completion_script(CompletionShell::Zsh).contains("bashcompinit"));
    assert!(completion_script(CompletionShell::Fish).contains("complete -c notes"));
}
