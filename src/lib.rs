//! Core of a single-writer public diary: anyone may overwrite today's entry
//! until midnight in a fixed time zone (UTC+9), after which the day's text
//! is final. The crate holds the calendar and clock rules that decide what
//! "today" is, the entry store with its archive of overwritten versions, and
//! the pages and RSS feed built from stored entries.
//!
//! Time comes in as Unix seconds handed over by the caller, so that the
//! moment a rule is evaluated at is always explicit.

pub mod auth;
pub mod calendar;
pub mod clock;
pub mod escape;
pub mod models;
pub mod pages;
pub mod rate_limit;
pub mod requests;
pub mod store;
pub mod text;
pub mod timestamp;

pub use auth::{
    check_bearer_token, check_cookie_token, create_auth_cookie, create_logout_cookie,
    extract_cookie_token, ADMIN_COOKIE_NAME,
};
pub use calendar::{calculate_weekday, is_valid_date, parse_date, CalendarDate};
pub use clock::{is_today, now_iso8601, today_jst, MAX_INSTANT, MIN_INSTANT};
pub use escape::{escape_common, escape_html, escape_xml};
pub use models::{
    CreateDiaryRequest, DiaryEntry, DiaryEntryResponse, DiaryEntrySummary, DiaryListResponse,
    DiaryVersion, ErrorResponse, TodayEmptyResponse, VersionDetailResponse, VersionListResponse,
    VersionSummary,
};
pub use pages::{
    html_head, render_about, render_admin_version_detail, render_admin_versions_index,
    render_admin_versions_list, render_archive, render_entry, render_home, render_not_found,
    render_rss,
};
pub use rate_limit::{is_rate_limited, MAX_REQUESTS, WINDOW_SECONDS};
pub use store::{prepare_content, ArchiveError, ContentError, DiaryStore, MAX_CONTENT_LENGTH};
pub use timestamp::datetime_to_rfc2822;
