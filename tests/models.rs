use diary::{
    DiaryEntry, DiaryEntryResponse, DiaryEntrySummary, DiaryVersion, ErrorResponse,
    VersionSummary,
};

#[test]
fn test_diary_entry_summary_short_content() {
    let entry = DiaryEntry {
        date: "2025-01-15".to_string(),
        content: "短い日記".to_string(),
        created_at: "2025-01-15T00:00:00Z".to_string(),
        updated_at: "2025-01-15T00:00:00Z".to_string(),
    };
    let summary = DiaryEntrySummary::from_entry(&entry);
    assert_eq!(summary.preview, "短い日記");
}

#[test]
fn test_diary_entry_summary_long_content() {
    let long_content = "あ".repeat(150);
    let entry = DiaryEntry {
        date: "2025-01-15".to_string(),
        content: long_content,
        created_at: "2025-01-15T00:00:00Z".to_string(),
        updated_at: "2025-01-15T00:00:00Z".to_string(),
    };
    let summary = DiaryEntrySummary::from_entry(&entry);
    assert!(summary.preview.ends_with("..."));
    assert_eq!(summary.preview.chars().count(), 103); // 100 + "..."
}

#[test]
fn summary_of_exactly_one_hundred_characters_is_not_cut() {
    let entry = DiaryEntry {
        date: "2025-01-15".to_string(),
        content: "x".repeat(100),
        created_at: String::new(),
        updated_at: String::new(),
    };
    assert_eq!(DiaryEntrySummary::from_entry(&entry).preview, "x".repeat(100));
}

#[test]
fn version_summary_previews_content() {
    let v = DiaryVersion {
        id: 7,
        entry_date: "2025-01-15".to_string(),
        content: "い".repeat(101),
        version_number: 2,
        created_at: "2025-01-15T01:00:00Z".to_string(),
    };
    let s = VersionSummary::from_version(&v);
    assert_eq!(s.version_number, 2);
    assert_eq!(s.created_at, "2025-01-15T01:00:00Z");
    assert_eq!(s.preview, format!("{}...", "い".repeat(100)));
}

#[test]
fn entry_response_copies_fields() {
    let entry = DiaryEntry {
        date: "2025-01-15".to_string(),
        content: "本文".to_string(),
        created_at: String::new(),
        updated_at: String::new(),
    };
    let r = DiaryEntryResponse::from_entry(&entry, true);
    assert_eq!(r.date, "2025-01-15");
    assert_eq!(r.content, "本文");
    assert!(r.can_edit);
}

#[test]
fn error_responses_carry_codes() {
    let e = ErrorResponse::not_found();
    assert_eq!((e.error.as_str(), e.code.as_str()), ("Entry not found", "NOT_FOUND"));
    let e = ErrorResponse::bad_request("Invalid JSON");
    assert_eq!((e.error.as_str(), e.code.as_str()), ("Invalid JSON", "BAD_REQUEST"));
    let e = ErrorResponse::internal_error();
    assert_eq!(
        (e.error.as_str(), e.code.as_str()),
        ("Internal server error", "INTERNAL_ERROR")
    );
}
