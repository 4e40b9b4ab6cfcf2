use diary::store::{
    needs_archive, next_archive_step, prepare_content, AppendOutcome, ArchiveError, ArchiveStep,
    ContentError, DiaryStore,
};
use diary::{DiaryEntry, MAX_CONTENT_LENGTH};

// 2025-01-15T01:00:00Z, 10:00 on the 15th in UTC+9.
const MORNING: i64 = 1736902800;

#[test]
fn same_content_twice_archives_nothing() {
    let mut s = DiaryStore::new();
    s.upsert_today_entry("hello", MORNING);
    s.upsert_today_entry("hello", MORNING + 60);
    assert!(s.list_versions("2025-01-15").is_empty());
    let e = s.get_entry("2025-01-15").unwrap();
    assert_eq!(e.content, "hello");
    assert_eq!(e.created_at, "2025-01-15T01:00:00Z");
    assert_eq!(e.updated_at, "2025-01-15T01:01:00Z");
}

#[test]
fn changed_content_is_archived_in_order() {
    let mut s = DiaryStore::new();
    s.upsert_today_entry("A", MORNING);
    s.upsert_today_entry("B", MORNING + 1);
    let vs = s.list_versions("2025-01-15");
    assert_eq!(vs.len(), 1);
    assert_eq!((vs[0].version_number, vs[0].content.as_str()), (1, "A"));
    assert_eq!(vs[0].created_at, "2025-01-15T01:00:01Z");
    s.upsert_today_entry("C", MORNING + 2);
    let vs = s.list_versions("2025-01-15");
    assert_eq!(vs.len(), 2);
    assert_eq!((vs[0].version_number, vs[0].content.as_str()), (2, "B"));
    assert_eq!((vs[1].version_number, vs[1].content.as_str()), (1, "A"));
    assert_eq!(s.get_entry("2025-01-15").unwrap().content, "C");
    assert_eq!(s.get_version("2025-01-15", 1).unwrap().content, "A");
    assert_eq!(s.get_version("2025-01-15", 2).unwrap().content, "B");
    assert!(s.get_version("2025-01-15", 3).is_none());
    assert!(s.get_version("2025-01-15", 0).is_none());
}

#[test]
fn next_version_number_and_taken_numbers() {
    let mut s = DiaryStore::new();
    assert_eq!(s.get_next_version_number("2025-01-15"), 1);
    for n in 1..=3 {
        assert_eq!(s.save_version("2025-01-15", "x", "2025-01-15T00:00:00Z"), n);
    }
    assert_eq!(s.get_next_version_number("2025-01-15"), 4);
    assert_eq!(s.get_next_version_number("2025-01-16"), 1);
    // Two writers that both read 4 as the next number: only one append holds.
    assert_eq!(s.try_append_version("2025-01-15", "first", 4, "t"), Ok(()));
    assert_eq!(
        s.try_append_version("2025-01-15", "second", 4, "t"),
        Err(ArchiveError::VersionTaken)
    );
    assert_eq!(s.get_version("2025-01-15", 4).unwrap().content, "first");
    assert_eq!(s.get_next_version_number("2025-01-15"), 5);
}

#[test]
fn entries_stay_one_per_day_and_past_ones_list_newest_first() {
    let mut s = DiaryStore::new();
    assert!(s.write_entry("2025-01-14", "b", "t1").is_ok());
    assert!(s.write_entry("2025-01-12", "a", "t2").is_ok());
    assert!(s.write_entry("2025-01-15", "today", "t3").is_ok());
    assert!(s.write_entry("2025-01-14", "b2", "t4").is_ok());
    let e = s.get_entry("2025-01-14").unwrap();
    assert_eq!((e.content.as_str(), e.created_at.as_str(), e.updated_at.as_str()), ("b2", "t1", "t4"));
    let past: Vec<String> = s.list_past_entries(MORNING, 10).into_iter().map(|e| e.date).collect();
    assert_eq!(past, vec!["2025-01-14".to_string(), "2025-01-12".to_string()]);
    let one: Vec<String> = s.list_past_entries(MORNING, 1).into_iter().map(|e| e.date).collect();
    assert_eq!(one, vec!["2025-01-14".to_string()]);
    assert!(s.list_past_entries(MORNING, 0).is_empty());
    assert!(s.get_entry("2025-01-13").is_none());
    assert_eq!(
        s.write_entry("2025-02-30", "x", "t5"),
        Err(diary::requests::RequestError::InvalidDate)
    );
    assert!(s.get_entry("2025-02-30").is_none());
}

#[test]
fn archive_decision() {
    let e = DiaryEntry {
        date: "2025-01-15".to_string(),
        content: "x".to_string(),
        created_at: String::new(),
        updated_at: String::new(),
    };
    assert!(!needs_archive(None, "x"));
    assert!(!needs_archive(Some(&e), "x"));
    assert!(needs_archive(Some(&e), "y"));
}

#[test]
fn content_bound_counts_characters() {
    assert_eq!(MAX_CONTENT_LENGTH, 10000);
    let exact = "あ".repeat(10000);
    assert_eq!(prepare_content(&exact), Ok(exact.clone()));
    assert_eq!(prepare_content(&"あ".repeat(10001)), Err(ContentError::TooLong));
    assert_eq!(prepare_content(&"a".repeat(10001)), Err(ContentError::TooLong));
    // Carriage returns are dropped before counting.
    let with_cr = format!("{}\r", "a".repeat(10000));
    assert_eq!(prepare_content(&with_cr), Ok("a".repeat(10000)));
    assert_eq!(prepare_content("a\r\nb"), Ok("a\nb".to_string()));
    assert_eq!(
        ContentError::TooLong.message(),
        "Content too long. Maximum 10000 characters allowed."
    );
}

#[test]
fn a_collision_is_retried_once() {
    assert_eq!(next_archive_step(0, AppendOutcome::Stored), ArchiveStep::Done);
    assert_eq!(next_archive_step(0, AppendOutcome::NumberTaken), ArchiveStep::Retry);
    assert_eq!(next_archive_step(1, AppendOutcome::NumberTaken), ArchiveStep::Fail);
    assert_eq!(next_archive_step(1, AppendOutcome::Stored), ArchiveStep::Done);
    assert_eq!(next_archive_step(0, AppendOutcome::Failed), ArchiveStep::Fail);
}

#[test]
fn recent_entries_with_and_without_bound() {
    let mut s = DiaryStore::new();
    for d in ["2025-01-13", "2025-01-15", "2025-01-14"] {
        assert!(s.write_entry(d, "x", "t").is_ok());
    }
    let dates = |v: Vec<DiaryEntry>| v.into_iter().map(|e| e.date).collect::<Vec<_>>();
    assert_eq!(dates(s.list_recent(None, 10)), vec!["2025-01-15", "2025-01-14", "2025-01-13"]);
    assert_eq!(dates(s.list_recent(None, 2)), vec!["2025-01-15", "2025-01-14"]);
    assert_eq!(dates(s.list_recent(Some("2025-01-15"), 10)), vec!["2025-01-14", "2025-01-13"]);
    assert!(s.list_recent(Some("garbage"), 10).is_empty());
}
