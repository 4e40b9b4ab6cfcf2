use diary::clock::now_iso8601;
use diary::pages::{admin_nav, FEED_PREVIEW_CHARS};
use diary::{
    datetime_to_rfc2822, escape_html, escape_xml, html_head, render_about,
    render_admin_version_detail, render_admin_versions_index, render_admin_versions_list,
    render_archive, render_entry, render_home, render_not_found, render_rss, DiaryEntry,
    DiaryEntrySummary, DiaryVersion, VersionSummary,
};

fn entry(date: &str, content: &str, updated_at: &str) -> DiaryEntry {
    DiaryEntry {
        date: date.to_string(),
        content: content.to_string(),
        created_at: updated_at.to_string(),
        updated_at: updated_at.to_string(),
    }
}

#[test]
fn test_render_rss_empty() {
    let rss = render_rss(&[], "https://example.com");
    assert!(rss.contains("<?xml version=\"1.0\" encoding=\"UTF-8\"?>"));
    assert!(rss.contains("<title>誰かが書く日記</title>"));
    assert!(rss.contains("<link>https://example.com</link>"));
}

#[test]
fn test_render_rss_with_entries() {
    let entries = vec![entry("2025-01-15", "今日はいい天気だった", "2025-01-15T10:00:00Z")];
    let rss = render_rss(&entries, "https://example.com");
    assert!(rss.contains("<title>2025-01-15の日記</title>"));
    assert!(rss.contains("<link>https://example.com/entries/2025-01-15</link>"));
    assert!(rss.contains("<description>今日はいい天気だった</description>"));
}

#[test]
fn test_render_rss_escapes_xml() {
    let entries = vec![entry("2025-01-15", "<script>alert('xss')</script>", "2025-01-15T10:00:00Z")];
    let rss = render_rss(&entries, "https://example.com");
    assert!(rss.contains("&lt;script&gt;"));
    assert!(!rss.contains("<script>"));
}

#[test]
fn test_render_rss_truncates_long_content() {
    let long_content = "あ".repeat(300);
    let entries = vec![entry("2025-01-15", &long_content, "2025-01-15T10:00:00Z")];
    let rss = render_rss(&entries, "https://example.com");
    assert!(rss.contains("..."));
}

#[test]
fn feed_description_is_two_hundred_characters_and_marker() {
    let entries = vec![entry("2025-01-15", &"あ".repeat(300), "2025-01-15T10:00:00Z")];
    let rss = render_rss(&entries, "https://example.com");
    let expected = format!("<description>{}...</description>", "あ".repeat(200));
    assert!(rss.contains(&expected));
    assert!(!rss.contains(&"あ".repeat(201)));
    assert_eq!(FEED_PREVIEW_CHARS, 200);
}

#[test]
fn feed_item_exact_text() {
    let entries = vec![
        entry("2025-01-15", "a'b", "2025-01-15T10:00:00Z"),
        entry("2025-01-14", "c", "2025-01-14"),
    ];
    let rss = render_rss(&entries, "https://x.test");
    let first = "    <item>\n      <title>2025-01-15の日記</title>\n      <link>https://x.test/entries/2025-01-15</link>\n      <guid>https://x.test/entries/2025-01-15</guid>\n      <pubDate>Wed, 15 Jan 2025 19:00:00 +0900</pubDate>\n      <description>a&apos;b</description>\n    </item>";
    let second = "    <item>\n      <title>2025-01-14の日記</title>\n      <link>https://x.test/entries/2025-01-14</link>\n      <guid>https://x.test/entries/2025-01-14</guid>\n      <pubDate>Tue, 14 Jan 2025 00:00:00 +0900</pubDate>\n      <description>c</description>\n    </item>";
    assert!(rss.contains(&format!("{}\n{}\n  </channel>", first, second)));
}

// 2025-01-15 was a Wednesday, and 10:30:45 UTC is 19:30:45 in UTC+9.
#[test]
fn test_datetime_to_rfc2822() {
    let rfc = datetime_to_rfc2822("2025-01-15T10:30:45Z");
    assert!(rfc.contains("Jan"));
    assert!(rfc.contains("2025"));
    assert!(rfc.contains("19:30:45"));
    assert!(rfc.contains("+0900"));
}

#[test]
fn test_datetime_to_rfc2822_preserves_time() {
    let rfc = datetime_to_rfc2822("2025-01-15T10:30:45Z");
    assert_eq!(rfc, "Wed, 15 Jan 2025 19:30:45 +0900");
}

#[test]
fn feed_date_keeps_time_already_in_the_fixed_zone() {
    assert_eq!(
        datetime_to_rfc2822("2025-01-15T10:30:45+09:00"),
        "Wed, 15 Jan 2025 10:30:45 +0900"
    );
    assert_eq!(
        datetime_to_rfc2822("2025-01-15T10:30:45"),
        "Wed, 15 Jan 2025 10:30:45 +0900"
    );
}

#[test]
fn feed_date_crosses_day_month_and_year() {
    assert_eq!(
        datetime_to_rfc2822("2024-12-31T15:00:00.123+00:00"),
        "Wed, 01 Jan 2025 00:00:00 +0900"
    );
    assert_eq!(
        datetime_to_rfc2822("2023-02-28T20:00:00-05:00"),
        "Wed, 01 Mar 2023 10:00:00 +0900"
    );
    assert_eq!(datetime_to_rfc2822("2025-01-15"), "Wed, 15 Jan 2025 00:00:00 +0900");
}

#[test]
fn feed_date_returns_unreadable_text_unchanged() {
    for s in ["", "short", "2025-13-01T00:00:00Z", "2025-01-15T25:00:00Z", "2025-01-15T10:30:45+0900", "2025-01-15T10:30:45.Z", "not a timestamp at all"] {
        assert_eq!(datetime_to_rfc2822(s), s);
    }
}

#[test]
fn test_escape_xml() {
    assert_eq!(escape_xml("<test>"), "&lt;test&gt;");
    assert_eq!(escape_xml("a & b"), "a &amp; b");
    assert_eq!(escape_xml("\"quote\""), "&quot;quote&quot;");
}

#[test]
fn apostrophes_differ_between_xml_and_html() {
    assert_eq!(escape_xml("it's"), "it&apos;s");
    assert_eq!(escape_html("it's"), "it&#x27;s");
    assert_eq!(escape_html("&<>\"'"), "&amp;&lt;&gt;&quot;&#x27;");
    assert_eq!(diary::escape_common("a'&b"), "a'&amp;b");
}

#[test]
fn test_toast_css_exists() {
    let head = html_head("テスト");
    assert!(head.contains(".toast {"));
    assert!(head.contains("toast-slide-in"));
    assert!(head.contains("toast-fade-out"));
}

#[test]
fn head_escapes_title() {
    assert!(html_head("<b>").contains("<title>&lt;b&gt; - 誰かが書く日記</title>"));
}

#[test]
fn home_shows_today_and_escaped_content() {
    // 2025-01-15T15:00:00Z is 2025-01-16 00:00 in UTC+9.
    let e = entry("2025-01-16", "<hi>", "2025-01-15T15:00:00Z");
    let page = render_home(Some(&e), "site'key", 1736953200);
    assert!(page.contains("<p class=\"date\">2025-01-16の日記</p>"));
    assert!(page.contains("今日の日記を書いてください...\">&lt;hi&gt;</textarea>"));
    assert!(page.contains("sitekey: 'site&#x27;key',"));
    assert!(page.ends_with("</body></html>"));
}

#[test]
fn archive_lists_previews() {
    assert!(render_archive(&[]).contains("まだ過去の日記はありません"));
    let items = vec![
        DiaryEntrySummary { date: "2025-01-14".to_string(), preview: "a".to_string() },
        DiaryEntrySummary { date: "2025-01-13".to_string(), preview: "<b>".to_string() },
    ];
    let page = render_archive(&items);
    assert!(page.contains("<ul class=\"entry-list\"><li><a href=\"/entries/2025-01-14\">"));
    assert!(page.contains("<div class=\"entry-preview\">&lt;b&gt;</div>"));
    assert!(page.contains("</a></li>\n<li>"));
}

#[test]
fn entry_page_links_to_form_only_when_editable() {
    let e = entry("2025-01-15", "本文", "2025-01-15T10:00:00Z");
    let editable = render_entry(&e, true);
    assert!(editable.contains("<h1>2025-01-15の日記</h1>"));
    assert!(editable.contains("<div class=\"content\">本文</div>"));
    assert!(editable.contains("編集する"));
    assert!(!render_entry(&e, false).contains("編集する"));
}

#[test]
fn fixed_pages_render() {
    assert!(render_not_found().contains("日記が見つかりません"));
    assert!(render_about().contains("これはなにか"));
}

#[test]
fn admin_pages_render() {
    assert!(admin_nav("t").contains("/admin/versions?token=t\""));
    let index = render_admin_versions_index("t&", 1736953199);
    assert!(index.contains("action=\"/admin/entries/2025-01-15/versions\""));
    assert!(index.contains("value=\"t&amp;\""));
    let vs = vec![VersionSummary {
        version_number: 3,
        created_at: "2025-01-15T01:00:00Z".to_string(),
        preview: "old".to_string(),
    }];
    let list = render_admin_versions_list("2025-01-15", Some("now"), &vs, "t");
    assert!(list.contains("/admin/entries/2025-01-15/versions/3?token=t"));
    assert!(list.contains("バージョン 3 (2025-01-15T01:00:00Z)"));
    assert!(list.contains("<div class=\"content\">now</div>"));
    let empty = render_admin_versions_list("2025-01-15", None, &[], "t");
    assert!(empty.contains("この日付の日記はありません"));
    assert!(empty.contains("バージョン履歴はありません"));
    let v = DiaryVersion {
        id: 1,
        entry_date: "2025-01-15".to_string(),
        content: "old".to_string(),
        version_number: 1,
        created_at: "2025-01-15T01:00:00Z".to_string(),
    };
    let detail = render_admin_version_detail(&v, "t");
    assert!(detail.contains("<title>2025-01-15 バージョン1 - 誰かが書く日記</title>"));
    assert!(detail.contains("<h1>2025-01-15の日記 - バージョン 1</h1>"));
}

#[test]
fn stored_timestamps_render_at_their_instant() {
    let t = 1736953199;
    assert_eq!(datetime_to_rfc2822(&now_iso8601(t)), "Wed, 15 Jan 2025 23:59:59 +0900");
    assert_eq!(datetime_to_rfc2822(&now_iso8601(t + 1)), "Thu, 16 Jan 2025 00:00:00 +0900");
}

#[test]
fn feed_escapes_the_site_address() {
    let entries = vec![entry("2025-01-15", "x", "2025-01-15T10:00:00Z")];
    let rss = render_rss(&entries, "https://x.test/?a=1&b=<2>");
    assert!(rss.contains("<link>https://x.test/?a=1&amp;b=&lt;2&gt;</link>"));
    assert!(rss.contains("<link>https://x.test/?a=1&amp;b=&lt;2&gt;/entries/2025-01-15</link>"));
    assert!(rss.contains("<guid>https://x.test/?a=1&amp;b=&lt;2&gt;/entries/2025-01-15</guid>"));
    assert!(!rss.contains("&b="));
}

#[test]
fn admin_nav_escapes_the_token() {
    assert!(admin_nav("a\"b").contains("/admin/versions?token=a&quot;b\""));
}
