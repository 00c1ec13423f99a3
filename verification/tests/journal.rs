use notes::bullet::{
    add_entry, complete_task, entry_preview, format_entry, format_journal_file,
    generate_entry_id, migrate_tasks, parse_journal_file, parse_journal_line, pending_indices,
    run_interactive, BulletEntry, BulletType, InteractiveCommand, JournalPeriod, TaskState,
};
use notes::dates::{
    date_key, days_in_month, is_leap_year, iso_week_of, next_day, parse_date, prev_day, Date,
};

fn d(year: i32, month: u32, day: u32) -> Date {
    Date { year, month, day }
}

fn entry(id: &str, bt: BulletType, ts: Option<TaskState>, content: &str) -> BulletEntry {
    BulletEntry {
        id: id.to_string(),
        bullet_type: bt,
        task_state: ts,
        content: content.to_string(),
        created_at: 7,
        date: d(2024, 5, 1),
    }
}

#[test]
fn parses_entry_lines_and_skips_the_rest() {
    let today = d(2024, 5, 1);
    let e = parse_journal_line("- [x] Buy milk {id:deadbeef}", today, 7).expect("entry line");
    assert_eq!(e.bullet_type, BulletType::Task);
    assert_eq!(e.task_state, Some(TaskState::Complete));
    assert_eq!(e.content, "Buy milk");
    assert_eq!(e.id, "deadbeef");
    assert_eq!(e.date, today);

    assert!(parse_journal_line("# Daily Log - 2024-05-01", today, 7).is_none());
    assert!(parse_journal_line("- [x] short id {id:abc}", today, 7).is_none());
    assert!(parse_journal_line("- [x] no close {id:deadbeef", today, 7).is_none());
    assert!(parse_journal_line("- [?] odd marker {id:deadbeef}", today, 7).is_none());
    assert!(parse_journal_line("- [x] UPPER HEX {id:DEADBEEF}", today, 7).is_none());
}

#[test]
fn entry_lines_round_trip_through_the_formatter() {
    let today = d(2024, 5, 1);
    let cases = vec![
        entry("deadbeef", BulletType::Task, Some(TaskState::Incomplete), "plain text"),
        entry("cafebabe", BulletType::Task, Some(TaskState::Migrated), "moved on"),
        entry("0123456789ab", BulletType::Event, None, "standup at 9"),
        entry("abcdef012345", BulletType::Note, None, "an idea"),
        // Content that itself looks like an identifier tail.
        entry("cafebabe", BulletType::Task, Some(TaskState::Complete), "x {id:deadbeef}"),
    ];
    for e in cases {
        let line = format_entry(&e);
        let parsed = parse_journal_line(line.trim_end(), today, 7).expect("round trip");
        assert_eq!(parsed.bullet_type, e.bullet_type);
        assert_eq!(parsed.task_state, e.task_state);
        assert_eq!(parsed.content, e.content);
        assert_eq!(parsed.id, e.id);
    }
}

#[test]
fn formats_whole_files_with_sections() {
    let es = vec![
        entry("deadbeef", BulletType::Task, Some(TaskState::Incomplete), "task one"),
        entry("cafebabe", BulletType::Note, None, "a note"),
    ];
    let text = format_journal_file(&es, JournalPeriod::Daily, "2024-05-01");
    assert_eq!(
        text,
        "# Daily Log - 2024-05-01\n\n## Tasks\n- [ ] task one {id:deadbeef}\n\n## Notes\n- [-] a note {id:cafebabe}\n\n"
    );
    let weekly = format_journal_file(&vec![], JournalPeriod::Weekly, "2024-W18");
    assert_eq!(weekly, "# Weekly Log - 2024-W18\n\n");
}

#[test]
fn parses_whole_files_in_order() {
    let today = d(2024, 5, 1);
    let text = "# Daily Log - 2024-05-01\n\n## Tasks\n- [ ] first {id:deadbeef}\n- [x] second {id:cafebabe}\n\nnoise\n";
    let es = parse_journal_file(text, today, 7);
    assert_eq!(es.len(), 2);
    assert_eq!(es[0].content, "first");
    assert_eq!(es[1].content, "second");
    assert_eq!(es[1].task_state, Some(TaskState::Complete));

    let crlf = "- [ ] windows line {id:deadbeef}\r\n";
    let es = parse_journal_file(crlf, today, 7);
    assert_eq!(es.len(), 1);
    assert_eq!(es[0].content, "windows line");
}

#[test]
fn completes_first_matching_task_by_prefix() {
    let mut es = vec![
        entry("aaaa1111", BulletType::Note, None, "not a task"),
        entry("deadbeef", BulletType::Task, Some(TaskState::Incomplete), "match me"),
        entry("dead0000", BulletType::Task, Some(TaskState::Incomplete), "later match"),
    ];
    let hit = complete_task(&mut es, "dead");
    assert_eq!(hit, Some(1));
    assert_eq!(es[1].task_state, Some(TaskState::Complete));
    assert_eq!(es[2].task_state, Some(TaskState::Incomplete));
    let miss = complete_task(&mut es, "ffff");
    assert_eq!(miss, None);
}

#[test]
fn migrate_moves_pending_tasks_to_today() {
    let today = d(2024, 5, 2);
    let mut from = vec![
        entry("deadbeef", BulletType::Task, Some(TaskState::Incomplete), "carry me"),
        entry("cafebabe", BulletType::Task, Some(TaskState::Complete), "done already"),
        entry("0123abcd", BulletType::Task, Some(TaskState::Incomplete), "me too"),
    ];
    let mut to: Vec<BulletEntry> = Vec::new();
    let ids = migrate_tasks(&mut from, &mut to, true, today, 99);
    assert_eq!(ids.len(), 2);
    assert_eq!(to.len(), 2);
    assert_eq!(to[0].content, "carry me");
    assert_eq!(to[1].content, "me too");
    assert_eq!(to[0].date, today);
    assert_eq!(to[0].task_state, Some(TaskState::Incomplete));
    assert_eq!(from[0].task_state, Some(TaskState::Migrated));
    assert_eq!(from[1].task_state, Some(TaskState::Complete));
    assert_eq!(from[2].task_state, Some(TaskState::Migrated));

    // Without `all`, only the first pending task moves.
    let mut from2 = vec![
        entry("deadbeef", BulletType::Task, Some(TaskState::Incomplete), "one"),
        entry("cafebabe", BulletType::Task, Some(TaskState::Incomplete), "two"),
    ];
    let mut to2: Vec<BulletEntry> = Vec::new();
    let ids2 = migrate_tasks(&mut from2, &mut to2, false, today, 99);
    assert_eq!(ids2.len(), 1);
    assert_eq!(to2.len(), 1);
    assert_eq!(to2[0].content, "one");
    assert_eq!(from2[1].task_state, Some(TaskState::Incomplete));
}

#[test]
fn pending_indices_pick_incomplete_tasks() {
    let es = vec![
        entry("deadbeef", BulletType::Task, Some(TaskState::Incomplete), "a"),
        entry("cafebabe", BulletType::Event, None, "b"),
        entry("0123abcd", BulletType::Task, Some(TaskState::Complete), "c"),
        entry("4567abcd", BulletType::Task, Some(TaskState::Incomplete), "d"),
    ];
    assert_eq!(pending_indices(&es), vec![0, 3]);
}

#[test]
fn add_entry_appends_a_fresh_task() {
    let today = d(2024, 5, 1);
    let mut es: Vec<BulletEntry> = Vec::new();
    let id = add_entry(&mut es, "quick capture", BulletType::Task, today, 42);
    assert_eq!(es.len(), 1);
    assert_eq!(es[0].id, id);
    assert_eq!(es[0].task_state, Some(TaskState::Incomplete));
    assert_eq!(es[0].content, "quick capture");
    let id2 = add_entry(&mut es, "seen", BulletType::Event, today, 43);
    assert_eq!(es[1].task_state, None);
    assert_eq!(id2.len(), 12);
}

#[test]
fn generated_ids_are_twelve_hex_digits() {
    let id = generate_entry_id();
    assert_eq!(id.len(), 12);
    assert!(id.chars().all(|c| c.is_ascii_hexdigit() && !c.is_ascii_uppercase()));
}

#[test]
fn previews_shorten_long_content() {
    assert_eq!(entry_preview("short"), "short");
    let long = "x".repeat(60);
    let p = entry_preview(&long);
    assert_eq!(p.len(), 50);
    assert!(p.ends_with("..."));
    assert_eq!(entry_preview(&"y".repeat(50)), "y".repeat(50));
}

#[test]
fn interactive_lines_become_commands() {
    assert!(matches!(run_interactive("t buy milk"), InteractiveCommand::AddTask(s) if s == "buy milk"));
    assert!(matches!(run_interactive("e standup"), InteractiveCommand::AddEvent(s) if s == "standup"));
    assert!(matches!(run_interactive("n idea"), InteractiveCommand::AddNote(s) if s == "idea"));
    assert!(matches!(run_interactive("l"), InteractiveCommand::ListToday));
    assert!(matches!(run_interactive("p"), InteractiveCommand::ListPending));
    assert!(matches!(run_interactive("x ab12"), InteractiveCommand::Complete(s) if s == "ab12"));
    assert!(matches!(run_interactive("q"), InteractiveCommand::Quit));
    assert!(matches!(run_interactive("Q"), InteractiveCommand::Quit));
    assert!(matches!(run_interactive("   "), InteractiveCommand::Nothing));
    assert!(matches!(run_interactive("t   "), InteractiveCommand::Nothing));
    assert!(matches!(run_interactive("remember this"), InteractiveCommand::AddTask(s) if s == "remember this"));
}

#[test]
fn calendar_arithmetic_handles_leap_years() {
    assert!(is_leap_year(2024));
    assert!(!is_leap_year(2023));
    assert!(!is_leap_year(1900));
    assert!(is_leap_year(2000));
    assert_eq!(days_in_month(2024, 2), 29);
    assert_eq!(days_in_month(2023, 2), 28);
    assert_eq!(next_day(d(2024, 2, 28)), d(2024, 2, 29));
    assert_eq!(next_day(d(2024, 12, 31)), d(2025, 1, 1));
    assert_eq!(prev_day(d(2024, 3, 1)), d(2024, 2, 29));
    assert_eq!(prev_day(d(2024, 1, 1)), d(2023, 12, 31));
}

#[test]
fn date_arguments_parse_strictly_and_relatively() {
    let today = d(2024, 5, 1);
    assert_eq!(parse_date("today", today), Some(today));
    assert_eq!(parse_date("TODAY", today), Some(today));
    assert_eq!(parse_date("yesterday", today), Some(d(2024, 4, 30)));
    assert_eq!(parse_date("tomorrow", today), Some(d(2024, 5, 2)));
    assert_eq!(parse_date("2024-02-29", today), Some(d(2024, 2, 29)));
    assert_eq!(parse_date("2023-02-29", today), None);
    assert_eq!(parse_date("2024-13-01", today), None);
    assert_eq!(parse_date("2024-5-1", today), None);
    assert_eq!(parse_date("gibberish", today), None);
}

#[test]
fn iso_weeks_match_the_standard() {
    assert_eq!(iso_week_of(d(2024, 1, 4)), (2024, 1));
    assert_eq!(iso_week_of(d(2021, 1, 1)), (2020, 53));
    assert_eq!(date_key(d(2024, 5, 1)), "2024-05-01");
}
