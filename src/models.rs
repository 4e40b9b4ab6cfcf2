use vstd::prelude::*;

verus! {

/// One diary entry: the text of one day.
#[derive(Debug, Clone)]
pub struct DiaryEntry {
    pub date: String,
    pub content: String,
    pub created_at: String,
    pub updated_at: String,
}

/// A diary entry as plain text values.
pub struct EntryView {
    pub date: Seq<char>,
    pub content: Seq<char>,
    pub created_at: Seq<char>,
    pub updated_at: Seq<char>,
}

impl View for DiaryEntry {
    type V = EntryView;

    open spec fn view(&self) -> EntryView {
        EntryView {
            date: self.date@,
            content: self.content@,
            created_at: self.created_at@,
            updated_at: self.updated_at@,
        }
    }
}

impl DiaryEntry {
    /// A copy of this entry.
    pub fn duplicate(&self) -> (r: DiaryEntry)
        ensures
            r@ == self@,
    {
        DiaryEntry {
            date: self.date.clone(),
            content: self.content.clone(),
            created_at: self.created_at.clone(),
            updated_at: self.updated_at.clone(),
        }
    }
}

pub open spec fn entry_view_seq(es: Seq<DiaryEntry>) -> Seq<EntryView> {
    es.map_values(|e: DiaryEntry| e@)
}

/// An archived snapshot of the content that a day held before it was
/// overwritten.
#[derive(Debug, Clone)]
pub struct DiaryVersion {
    pub id: i64,
    pub entry_date: String,
    pub content: String,
    pub version_number: i32,
    pub created_at: String,
}

/// An archived version as plain values.
pub struct VersionView {
    pub id: int,
    pub entry_date: Seq<char>,
    pub content: Seq<char>,
    pub version_number: int,
    pub created_at: Seq<char>,
}

impl View for DiaryVersion {
    type V = VersionView;

    open spec fn view(&self) -> VersionView {
        VersionView {
            id: self.id as int,
            entry_date: self.entry_date@,
            content: self.content@,
            version_number: self.version_number as int,
            created_at: self.created_at@,
        }
    }
}

impl DiaryVersion {
    /// A copy of this version.
    pub fn duplicate(&self) -> (r: DiaryVersion)
        ensures
            r@ == self@,
    {
        DiaryVersion {
            id: self.id,
            entry_date: self.entry_date.clone(),
            content: self.content.clone(),
            version_number: self.version_number,
            created_at: self.created_at.clone(),
        }
    }
}

/// Number of characters that a list preview keeps.
pub const PREVIEW_CHARS: usize = 100;

/// `s` cut to its first `n` characters followed by `...` when it is longer
/// than `n`, else `s` itself.
pub open spec fn preview_of(s: Seq<char>, n: nat) -> Seq<char> {
    if s.len() > n {
        s.take(n as int) + "..."@
    } else {
        s
    }
}

/// The preview of `s`: see `preview_of`.
pub fn preview_text(s: &str, n: usize) -> (r: String)
    ensures
        r@ == preview_of(s@, n as nat),
{
    let len = s.unicode_len();
    let mut r = crate::text::truncate_chars(s, n);
    if len > n {
        r.append("...");
    }
    r
}

/// An entry as the JSON interface returns it.
#[derive(Debug)]
pub struct DiaryEntryResponse {
    pub date: String,
    pub content: String,
    pub can_edit: bool,
}

impl DiaryEntryResponse {
    pub fn from_entry(entry: &DiaryEntry, can_edit: bool) -> (r: Self)
        ensures
            r.date@ == entry.date@,
            r.content@ == entry.content@,
            r.can_edit == can_edit,
    {
        DiaryEntryResponse { date: entry.date.clone(), content: entry.content.clone(), can_edit }
    }
}

/// The answer for today when nothing has been written yet.
#[derive(Debug)]
pub struct TodayEmptyResponse {
    pub date: String,
    pub content: Option<String>,
    pub can_edit: bool,
}

/// The body of a request that writes today's entry.
#[derive(Debug)]
pub struct CreateDiaryRequest {
    pub content: String,
}

/// An error as the JSON interface returns it.
#[derive(Debug)]
pub struct ErrorResponse {
    pub error: String,
    pub code: String,
}

impl ErrorResponse {
    pub fn new(error: &str, code: &str) -> (r: Self)
        ensures
            r.error@ == error@,
            r.code@ == code@,
    {
        ErrorResponse { error: String::from_str(error), code: String::from_str(code) }
    }

    pub fn not_found() -> (r: Self)
        ensures
            r.error@ == "Entry not found"@,
            r.code@ == "NOT_FOUND"@,
    {
        Self::new("Entry not found", "NOT_FOUND")
    }

    pub fn bad_request(message: &str) -> (r: Self)
        ensures
            r.error@ == message@,
            r.code@ == "BAD_REQUEST"@,
    {
        Self::new(message, "BAD_REQUEST")
    }

    pub fn internal_error() -> (r: Self)
        ensures
            r.error@ == "Internal server error"@,
            r.code@ == "INTERNAL_ERROR"@,
    {
        Self::new("Internal server error", "INTERNAL_ERROR")
    }
}

/// The list of past entries as the JSON interface returns it.
#[derive(Debug)]
pub struct DiaryListResponse {
    pub entries: Vec<DiaryEntrySummary>,
}

/// One past entry in a list: its date and a preview of its text.
#[derive(Debug)]
pub struct DiaryEntrySummary {
    pub date: String,
    pub preview: String,
}

impl DiaryEntrySummary {
    pub fn from_entry(entry: &DiaryEntry) -> (r: Self)
        ensures
            r.date@ == entry.date@,
            r.preview@ == preview_of(entry.content@, PREVIEW_CHARS as nat),
    {
        DiaryEntrySummary {
            date: entry.date.clone(),
            preview: preview_text(entry.content.as_str(), PREVIEW_CHARS),
        }
    }
}

/// The versions of one day as the JSON interface returns them.
#[derive(Debug)]
pub struct VersionListResponse {
    pub entry_date: String,
    pub current_content: Option<String>,
    pub versions: Vec<VersionSummary>,
}

/// One archived version in a list.
#[derive(Debug)]
pub struct VersionSummary {
    pub version_number: i32,
    pub created_at: String,
    pub preview: String,
}

impl VersionSummary {
    pub fn from_version(version: &DiaryVersion) -> (r: Self)
        ensures
            r.version_number == version.version_number,
            r.created_at@ == version.created_at@,
            r.preview@ == preview_of(version.content@, PREVIEW_CHARS as nat),
    {
        VersionSummary {
            version_number: version.version_number,
            created_at: version.created_at.clone(),
            preview: preview_text(version.content.as_str(), PREVIEW_CHARS),
        }
    }
}

/// One archived version in full, as the JSON interface returns it.
#[derive(Debug)]
pub struct VersionDetailResponse {
    pub entry_date: String,
    pub version_number: i32,
    pub content: String,
    pub created_at: String,
}

} // verus!
