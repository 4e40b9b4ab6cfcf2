use vstd::prelude::*;
use crate::calendar::{day_number, days_before_year, parse_date, parse_key};
use crate::clock::{in_range, timestamp_text, today_key, zone_day, ZONE_OFFSET_SECS};
use crate::models::{DiaryEntry, DiaryVersion, EntryView, VersionView};
use crate::requests::RequestError;

verus! {

/// The day number of a date key, or -1 when it names no real day.
pub open spec fn key_day(s: Seq<char>) -> int {
    match parse_key(s) {
        Some(c) => day_number(c.0, c.1, c.2),
        None => -1,
    }
}

/// Position of the entry for `date`, or -1 when there is none.
pub open spec fn entry_pos(es: Seq<EntryView>, date: Seq<char>) -> int
    decreases es.len(),
{
    if es.len() == 0 {
        -1
    } else if es.last().date == date {
        es.len() - 1
    } else {
        entry_pos(es.drop_last(), date)
    }
}

/// The entry for `date`, if there is one.
pub open spec fn find_entry(es: Seq<EntryView>, date: Seq<char>) -> Option<EntryView> {
    let p = entry_pos(es, date);
    if p >= 0 {
        Some(es[p])
    } else {
        None
    }
}

/// The archived versions of `date`, in the order they were archived.
pub open spec fn of_date(vs: Seq<VersionView>, date: Seq<char>) -> Seq<VersionView>
    decreases vs.len(),
{
    if vs.len() == 0 {
        Seq::empty()
    } else if vs.last().entry_date == date {
        of_date(vs.drop_last(), date).push(vs.last())
    } else {
        of_date(vs.drop_last(), date)
    }
}

/// The number that the next archived version of `date` gets: one more than
/// the largest so far, 1 for the first.
pub open spec fn next_number(vs: Seq<VersionView>, date: Seq<char>) -> int {
    of_date(vs, date).len() as int + 1
}

/// The entries of days before day `t`, latest day first.
pub open spec fn past_desc(es: Seq<EntryView>, t: int) -> Seq<EntryView>
    decreases es.len(),
{
    if es.len() == 0 {
        Seq::empty()
    } else if key_day(es[0].date) < t {
        past_desc(es.drop_first(), t).push(es[0])
    } else {
        past_desc(es.drop_first(), t)
    }
}

/// What the two collections hold.
pub struct StoreView {
    pub entries: Seq<EntryView>,
    pub versions: Seq<VersionView>,
}

/// The entries after writing `content` for `date` at `now`: the existing one
/// with new content, updated at `now` and created when it was; or a new entry
/// created and updated at `now`, in its place among the sorted days.
pub open spec fn upserted(es: Seq<EntryView>, date: Seq<char>, content: Seq<char>, now: Seq<char>)
    -> Seq<EntryView> {
    match find_entry(es, date) {
        Some(e) => es.update(
            entry_pos(es, date),
            EntryView { date, content, created_at: e.created_at, updated_at: now },
        ),
        None => es.insert(
            count_before(es, key_day(date)),
            EntryView { date, content, created_at: now, updated_at: now },
        ),
    }
}

/// How many entries are of days before day `t`: where a new day goes in the
/// sorted entries.
pub open spec fn count_before(es: Seq<EntryView>, t: int) -> int
    decreases es.len(),
{
    if es.len() == 0 {
        0
    } else {
        count_before(es.drop_last(), t) + if key_day(es.last().date) < t { 1int } else { 0int }
    }
}

/// The archive after storing `content` as the next version of `date` at `now`.
pub open spec fn archived(vs: Seq<VersionView>, date: Seq<char>, content: Seq<char>, now: Seq<char>)
    -> Seq<VersionView> {
    vs.push(
        VersionView {
            id: vs.len() as int + 1,
            entry_date: date,
            content,
            version_number: next_number(vs, date),
            created_at: now,
        },
    )
}

/// One write of `content` for `date` at `now`: when the day already holds
/// other content, that content goes to the archive first; then the entry is
/// written.
pub open spec fn written(s: StoreView, date: Seq<char>, content: Seq<char>, now: Seq<char>)
    -> StoreView {
    StoreView {
        entries: upserted(s.entries, date, content, now),
        versions: match find_entry(s.entries, date) {
            Some(e) => if e.content != content {
                archived(s.versions, date, e.content, now)
            } else {
                s.versions
            },
            None => s.versions,
        },
    }
}

/// Whether a write of `content` over `existing` must archive first.
pub fn needs_archive(existing: Option<&DiaryEntry>, content: &str) -> (r: bool)
    ensures
        r == (existing matches Some(e) && e.content@ != content@),
{
    match existing {
        Some(e) => !crate::text::str_eq(e.content.as_str(), content),
        None => false,
    }
}

/// Why an archive write was refused.
#[derive(Debug, Clone, Copy, PartialEq, Eq, Structural)]
pub enum ArchiveError {
    /// Another write took that version number first.
    VersionTaken,
}

/// The entries of the diary, one per day and sorted by day, and the archive
/// of the content that each day held before it was overwritten.
pub struct DiaryStore {
    entries: Vec<DiaryEntry>,
    days: Vec<i64>,
    versions: Vec<DiaryVersion>,
}

impl View for DiaryStore {
    type V = StoreView;

    closed spec fn view(&self) -> StoreView {
        StoreView {
            entries: self.entries@.map_values(|e: DiaryEntry| e@),
            versions: self.versions@.map_values(|v: DiaryVersion| v@),
        }
    }
}

pub open spec fn entry_views(es: Seq<DiaryEntry>) -> Seq<EntryView> {
    es.map_values(|e: DiaryEntry| e@)
}

pub open spec fn version_views(vs: Seq<DiaryVersion>) -> Seq<VersionView> {
    vs.map_values(|v: DiaryVersion| v@)
}

/// Every entry holds a real day, and the days increase strictly.
pub open spec fn sorted_days(es: Seq<EntryView>) -> bool {
    &&& forall|i: int| 0 <= i < es.len() ==> parse_key(#[trigger] es[i].date) is Some
    &&& forall|i: int, j: int|
        0 <= i < j < es.len() ==> key_day(#[trigger] es[i].date) < key_day(#[trigger] es[j].date)
}

pub open spec fn days_of(days: Seq<i64>, es: Seq<EntryView>) -> bool {
    &&& days.len() == es.len()
    &&& forall|i: int| 0 <= i < days.len() ==> #[trigger] days[i] == key_day(es[i].date)
}

proof fn lemma_update_sorted(es: Seq<EntryView>, days: Seq<i64>, i: int, x: EntryView)
    requires
        sorted_days(es),
        days_of(days, es),
        0 <= i < es.len(),
        x.date == es[i].date,
    ensures
        sorted_days(es.update(i, x)),
        days_of(days, es.update(i, x)),
{
    let ne = es.update(i, x);
    assert forall|a: int| 0 <= a < ne.len() implies #[trigger] ne[a].date == es[a].date by {}
}

proof fn lemma_insert_sorted(es: Seq<EntryView>, days: Seq<i64>, i: int, x: EntryView, k: i64)
    requires
        sorted_days(es),
        days_of(days, es),
        0 <= i <= es.len(),
        parse_key(x.date) is Some,
        k == key_day(x.date),
        forall|j: int| 0 <= j < i ==> key_day(#[trigger] es[j].date) < k,
        forall|j: int| i <= j < es.len() ==> key_day(#[trigger] es[j].date) > k,
    ensures
        sorted_days(es.insert(i, x)),
        days_of(days.insert(i, k), es.insert(i, x)),
{
    let ne = es.insert(i, x);
    let nd = days.insert(i, k);
    assert forall|a: int| 0 <= a < ne.len() implies #[trigger] ne[a] == if a < i {
        es[a]
    } else if a == i {
        x
    } else {
        es[a - 1]
    } by {}
    assert forall|a: int| 0 <= a < nd.len() implies #[trigger] nd[a] == key_day(ne[a].date) by {
        if a < i {
            assert(nd[a] == days[a]);
        } else if a > i {
            assert(nd[a] == days[a - 1]);
        }
    }
    assert forall|a: int, b: int| 0 <= a < b < ne.len() implies key_day(#[trigger] ne[a].date)
        < key_day(#[trigger] ne[b].date) by {
        if a > i {
            assert(key_day(es[a - 1].date) < key_day(es[b - 1].date));
        } else if a < i && b < i {
            assert(key_day(es[a].date) < key_day(es[b].date));
        } else if a < i && b > i {
            assert(key_day(es[a].date) < k);
            assert(key_day(es[b - 1].date) > k);
        } else if a == i {
            assert(key_day(es[b - 1].date) > k);
        }
    }
}

/// Entries hold real days, in increasing order (so one per day); the
/// versions of each day are numbered 1, 2, ... in the order they were
/// archived, and ids are positions in the archive, counted from 1.
pub open spec fn store_wf(s: StoreView) -> bool {
    &&& sorted_days(s.entries)
    &&& forall|d: Seq<char>, k: int|
        0 <= k < of_date(s.versions, d).len() ==> (#[trigger] of_date(s.versions, d)[k]).version_number
            == k + 1
    &&& forall|i: int| 0 <= i < s.versions.len() ==> (#[trigger] s.versions[i]).id == i + 1
}

proof fn lemma_of_date_push(vs: Seq<VersionView>, x: VersionView, d: Seq<char>)
    ensures
        of_date(vs.push(x), d) == if x.entry_date == d {
            of_date(vs, d).push(x)
        } else {
            of_date(vs, d)
        },
{
    assert(vs.push(x).drop_last() =~= vs);
}

proof fn lemma_archived_wf(s: StoreView, date: Seq<char>, content: Seq<char>, now: Seq<char>)
    requires
        store_wf(s),
    ensures
        store_wf(StoreView { entries: s.entries, versions: archived(s.versions, date, content, now) }),
{
    let vs = s.versions;
    let nv = archived(vs, date, content, now);
    let x = nv.last();
    assert(nv == vs.push(x));
    assert forall|d: Seq<char>, k: int| 0 <= k < of_date(nv, d).len() implies (#[trigger] of_date(
        nv,
        d,
    )[k]).version_number == k + 1 by {
        lemma_of_date_push(vs, x, d);
        if x.entry_date == d && k == of_date(vs, d).len() {
        } else {
            assert(of_date(nv, d)[k] == of_date(vs, d)[k]);
        }
    }
    assert forall|i: int| 0 <= i < nv.len() implies (#[trigger] nv[i]).id == i + 1 by {
        if i < vs.len() {
            assert(nv[i] == vs[i]);
        }
    }
}

/// `entry_pos` finds the last entry for a date, and -1 only when none is.
pub proof fn lemma_entry_pos(es: Seq<EntryView>, d: Seq<char>)
    ensures
        ({
            let p = entry_pos(es, d);
            (p == -1 && forall|j: int| 0 <= j < es.len() ==> (#[trigger] es[j]).date != d) || (0
                <= p < es.len() && es[p].date == d && forall|j: int|
                p < j < es.len() ==> (#[trigger] es[j]).date != d)
        }),
    decreases es.len(),
{
    if es.len() > 0 && es.last().date != d {
        let e = es.drop_last();
        lemma_entry_pos(e, d);
        assert forall|j: int| 0 <= j < e.len() implies es[j] == (#[trigger] e[j]) by {}
        let p = entry_pos(e, d);
        assert(entry_pos(es, d) == p);
        if p == -1 {
            assert forall|j: int| 0 <= j < es.len() implies (#[trigger] es[j]).date != d by {
                if j < e.len() {
                    assert(es[j] == e[j]);
                }
            }
        } else {
            assert forall|j: int| p < j < es.len() implies (#[trigger] es[j]).date != d by {
                if j < e.len() {
                    assert(es[j] == e[j]);
                }
            }
        }
    }
}

/// The converse of `lemma_entry_pos`.
pub proof fn lemma_entry_pos_at(es: Seq<EntryView>, d: Seq<char>, p: int)
    requires
        (p == -1 && forall|j: int| 0 <= j < es.len() ==> (#[trigger] es[j]).date != d) || (0 <= p
            < es.len() && es[p].date == d && forall|j: int|
            p < j < es.len() ==> (#[trigger] es[j]).date != d),
    ensures
        entry_pos(es, d) == p,
    decreases es.len(),
{
    if es.len() > 0 && p != es.len() - 1 {
        assert forall|j: int| 0 <= j < es.len() - 1 implies es[j] == (#[trigger] es.drop_last()[j]) by {}
        lemma_entry_pos_at(es.drop_last(), d, p);
    }
}

proof fn lemma_count_before_sorted(es: Seq<EntryView>, t: int, i: int)
    requires
        0 <= i <= es.len(),
        forall|j: int| 0 <= j < i ==> key_day(#[trigger] es[j].date) < t,
        forall|j: int| i <= j < es.len() ==> key_day(#[trigger] es[j].date) >= t,
    ensures
        count_before(es, t) == i,
    decreases es.len(),
{
    if es.len() > 0 {
        let e = es.drop_last();
        assert forall|j: int| 0 <= j < e.len() implies es[j] == (#[trigger] e[j]) by {}
        if i == es.len() {
            assert(key_day(es[es.len() - 1].date) < t);
            lemma_count_before_sorted(e, t, i - 1);
        } else {
            assert(key_day(es[es.len() - 1].date) >= t);
            lemma_count_before_sorted(e, t, i);
        }
    }
}

/// What the walk from position `i` to the end has found is where the walk
/// over all entries starts.
proof fn lemma_past_prefix(es: Seq<EntryView>, i: int, t: int)
    requires
        0 <= i <= es.len(),
    ensures
        ({
            let q = past_desc(es.subrange(i, es.len() as int), t);
            let p = past_desc(es, t);
            q.len() <= p.len() && p.take(q.len() as int) == q
        }),
    decreases i,
{
    if i > 0 {
        lemma_past_prefix(es, i - 1, t);
        let a = es.subrange(i - 1, es.len() as int);
        assert(a.drop_first() =~= es.subrange(i, es.len() as int));
        let q = past_desc(es.subrange(i, es.len() as int), t);
        let r = past_desc(a, t);
        let p = past_desc(es, t);
        assert(r.take(q.len() as int) =~= q);
        assert(p.take(q.len() as int) =~= r.take(q.len() as int));
    } else {
        assert(es.subrange(0, es.len() as int) =~= es);
        assert(past_desc(es, t).take(past_desc(es, t).len() as int) =~= past_desc(es, t));
    }
}

/// The most characters (code points) that one entry may hold.
pub const MAX_CONTENT_LENGTH: usize = 10000;

/// `s` without its carriage returns.
pub open spec fn without_cr(s: Seq<char>) -> Seq<char>
    decreases s.len(),
{
    if s.len() == 0 {
        s
    } else if s.last() == '\r' {
        without_cr(s.drop_last())
    } else {
        without_cr(s.drop_last()).push(s.last())
    }
}

/// How one attempt to append an archived version ended at the storage layer.
#[derive(Debug, Clone, Copy, PartialEq, Eq, Structural)]
pub enum AppendOutcome {
    Stored,
    /// A concurrent write took the number first (a unique-key collision).
    NumberTaken,
    /// The store failed otherwise.
    Failed,
}

/// What to do after an append attempt.
#[derive(Debug, Clone, Copy, PartialEq, Eq, Structural)]
pub enum ArchiveStep {
    Done,
    /// Read the next number again and append once more.
    Retry,
    /// Report a storage fault.
    Fail,
}

/// After attempt `attempt` (0 for the first) ended with `outcome`: a
/// collision is retried once, with a freshly read number; a second
/// collision, or any other failure, is a storage fault.
pub fn next_archive_step(attempt: u32, outcome: AppendOutcome) -> (r: ArchiveStep)
    ensures
        r == match outcome {
            AppendOutcome::Stored => ArchiveStep::Done,
            AppendOutcome::NumberTaken => if attempt == 0 {
                ArchiveStep::Retry
            } else {
                ArchiveStep::Fail
            },
            AppendOutcome::Failed => ArchiveStep::Fail,
        },
{
    match outcome {
        AppendOutcome::Stored => ArchiveStep::Done,
        AppendOutcome::NumberTaken => if attempt == 0 {
            ArchiveStep::Retry
        } else {
            ArchiveStep::Fail
        },
        AppendOutcome::Failed => ArchiveStep::Fail,
    }
}

/// Why submitted content was refused.
#[derive(Debug, Clone, Copy, PartialEq, Eq, Structural)]
pub enum ContentError {
    /// More than `MAX_CONTENT_LENGTH` characters.
    TooLong,
}

impl ContentError {
    pub fn message(&self) -> (r: String)
        ensures
            r@ == "Content too long. Maximum 10000 characters allowed."@,
    {
        String::from_str("Content too long. Maximum 10000 characters allowed.")
    }
}

/// Submitted text as it is stored: line ends normalised to LF by dropping
/// each CR, and refused when more than `MAX_CONTENT_LENGTH` characters
/// remain (characters, not bytes).
pub fn prepare_content(raw: &str) -> (r: Result<String, ContentError>)
    ensures
        r is Ok <==> without_cr(raw@).len() <= MAX_CONTENT_LENGTH,
        r matches Ok(c) ==> c@ == without_cr(raw@),
{
    let cs = crate::text::chars_of(raw);
    let mut out = String::new();
    let mut count: usize = 0;
    let mut i: usize = 0;
    while i < cs.len()
        invariant
            cs@ == raw@,
            i <= cs@.len(),
            out@ == without_cr(raw@.take(i as int)),
            count == out@.len(),
            count <= i,
        decreases cs.len() - i,
    {
        proof {
            assert(raw@.take(i + 1).drop_last() =~= raw@.take(i as int));
        }
        if cs[i] != '\r' {
            crate::text::push_char(&mut out, cs[i]);
            count = count + 1;
        }
        i = i + 1;
    }
    assert(raw@.take(raw@.len() as int) =~= raw@);
    if count > MAX_CONTENT_LENGTH {
        Err(ContentError::TooLong)
    } else {
        Ok(out)
    }
}

proof fn lemma_count_before_bounds(es: Seq<EntryView>, t: int)
    ensures
        0 <= count_before(es, t) <= es.len(),
    decreases es.len(),
{
    if es.len() > 0 {
        lemma_count_before_bounds(es.drop_last(), t);
    }
}

/// After a write, the day's entry holds the new content, stamped as updated
/// at the write and created at the first write of the day.
pub proof fn lemma_upserted_entry(es: Seq<EntryView>, d: Seq<char>, c: Seq<char>, now: Seq<char>)
    ensures
        find_entry(upserted(es, d, c, now), d) == Some(
            EntryView {
                date: d,
                content: c,
                created_at: match find_entry(es, d) {
                    Some(e) => e.created_at,
                    None => now,
                },
                updated_at: now,
            },
        ),
        upserted(es, d, c, now).len() == es.len() + if find_entry(es, d) is Some { 0int } else { 1int },
{
    lemma_entry_pos(es, d);
    let p = entry_pos(es, d);
    let ne = upserted(es, d, c, now);
    if p >= 0 {
        assert forall|j: int| p < j < ne.len() implies (#[trigger] ne[j]).date != d by {
            assert(ne[j] == es[j]);
        }
        lemma_entry_pos_at(ne, d, p);
    } else {
        let q = count_before(es, key_day(d));
        lemma_count_before_bounds(es, key_day(d));
        assert forall|j: int| q < j < ne.len() implies (#[trigger] ne[j]).date != d by {
            assert(ne[j] == es[j - 1]);
        }
        lemma_entry_pos_at(ne, d, q);
    }
}

/// Writing the content that a day already holds archives nothing: two
/// writes in a row of the same content leave the archive as the first left
/// it, and the day's one entry holds that content, created at the first
/// write (or earlier) and updated at the second.
pub proof fn lemma_same_content_twice(
    s: StoreView,
    d: Seq<char>,
    c: Seq<char>,
    t1: Seq<char>,
    t2: Seq<char>,
)
    ensures
        ({
            let s1 = written(s, d, c, t1);
            let s2 = written(s1, d, c, t2);
            &&& s2.versions == s1.versions
            &&& s2.entries.len() == s1.entries.len()
            &&& find_entry(s1.entries, d) matches Some(e1) && find_entry(s2.entries, d) == Some(
                EntryView { date: d, content: c, created_at: e1.created_at, updated_at: t2 },
            )
        }),
{
    let s1 = written(s, d, c, t1);
    lemma_upserted_entry(s.entries, d, c, t1);
    lemma_upserted_entry(s1.entries, d, c, t2);
}

/// Changed content is archived, oldest first: on a day with no entry and no
/// versions, writing `a`, then `b` (other than `a`), then `c` (other than
/// `b`) archives nothing at the first write, `a` as version 1 at the second,
/// and `b` as version 2 at the third.
pub proof fn lemma_changes_archived(
    s: StoreView,
    d: Seq<char>,
    a: Seq<char>,
    b: Seq<char>,
    c: Seq<char>,
    t1: Seq<char>,
    t2: Seq<char>,
    t3: Seq<char>,
)
    requires
        find_entry(s.entries, d) is None,
        of_date(s.versions, d).len() == 0,
        a != b,
        b != c,
    ensures
        ({
            let s1 = written(s, d, a, t1);
            let s2 = written(s1, d, b, t2);
            let s3 = written(s2, d, c, t3);
            &&& s1.versions == s.versions
            &&& of_date(s2.versions, d).len() == 1
            &&& of_date(s2.versions, d)[0].version_number == 1
            &&& of_date(s2.versions, d)[0].content == a
            &&& of_date(s2.versions, d)[0].created_at == t2
            &&& of_date(s3.versions, d).len() == 2
            &&& of_date(s3.versions, d)[0] == of_date(s2.versions, d)[0]
            &&& of_date(s3.versions, d)[1].version_number == 2
            &&& of_date(s3.versions, d)[1].content == b
            &&& of_date(s3.versions, d)[1].created_at == t3
        }),
{
    let s1 = written(s, d, a, t1);
    let s2 = written(s1, d, b, t2);
    lemma_upserted_entry(s.entries, d, a, t1);
    lemma_upserted_entry(s1.entries, d, b, t2);
    let v2 = s2.versions.last();
    lemma_of_date_push(s1.versions, v2, d);
    let v3 = written(s2, d, c, t3).versions.last();
    lemma_of_date_push(s2.versions, v3, d);
}

/// Version numbers: a day's first version is number 1; otherwise the next
/// number is one more than the largest, which is the latest; and once a
/// version is archived its number is taken, so a second append under that
/// number is refused (see `try_append_version`).
pub proof fn lemma_version_numbers(s: StoreView, d: Seq<char>, c: Seq<char>, now: Seq<char>)
    requires
        store_wf(s),
    ensures
        of_date(s.versions, d).len() == 0 ==> next_number(s.versions, d) == 1,
        of_date(s.versions, d).len() > 0 ==> next_number(s.versions, d) == of_date(s.versions, d).last().version_number + 1,
        forall|k: int| 0 <= k < of_date(s.versions, d).len() ==> (#[trigger] of_date(s.versions, d)[k]).version_number < next_number(s.versions, d),
        next_number(archived(s.versions, d, c, now), d) == next_number(s.versions, d) + 1,
{
    let v = archived(s.versions, d, c, now).last();
    lemma_of_date_push(s.versions, v, d);
}

/// Past entries come latest day first, each of a day before `t`.
pub proof fn lemma_past_desc_ordered(es: Seq<EntryView>, t: int)
    requires
        sorted_days(es),
    ensures
        forall|k: int|
            0 <= k < past_desc(es, t).len() ==> key_day(#[trigger] past_desc(es, t)[k].date) < t,
        forall|a: int, b: int|
            0 <= a < b < past_desc(es, t).len() ==> key_day(#[trigger] past_desc(es, t)[a].date)
                > key_day(#[trigger] past_desc(es, t)[b].date),
        forall|k: int|
            0 <= k < past_desc(es, t).len() ==> exists|j: int|
                0 <= j < es.len() && #[trigger] past_desc(es, t)[k] == es[j],
    decreases es.len(),
{
    if es.len() > 0 {
        let rest = es.drop_first();
        assert forall|a: int, b: int| 0 <= a < b < rest.len() implies key_day(
            #[trigger] rest[a].date,
        ) < key_day(#[trigger] rest[b].date) by {
            assert(rest[a] == es[a + 1] && rest[b] == es[b + 1]);
        }
        assert forall|i: int| 0 <= i < rest.len() implies parse_key(#[trigger] rest[i].date) is Some by {
            assert(rest[i] == es[i + 1]);
        }
        lemma_past_desc_ordered(rest, t);
        let p = past_desc(rest, t);
        assert forall|k: int| 0 <= k < p.len() implies key_day(#[trigger] p[k].date) > key_day(
            es[0].date,
        ) by {
            let j = choose|j: int| 0 <= j < rest.len() && p[k] == rest[j];
            assert(rest[j] == es[j + 1]);
        }
        assert forall|k: int| 0 <= k < p.len() implies exists|j: int|
            0 <= j < es.len() && #[trigger] p[k] == es[j] by {
            let j = choose|j: int| 0 <= j < rest.len() && p[k] == rest[j];
            assert(rest[j] == es[j + 1]);
        }
    }
}

/// Listed versions come newest first: the versions of a day, read from the
/// front, are numbered n, n - 1, ..., 1.
pub proof fn lemma_versions_newest_first(s: StoreView, d: Seq<char>)
    requires
        store_wf(s),
    ensures
        forall|k: int|
            0 <= k < of_date(s.versions, d).len() ==> (#[trigger] of_date(
                s.versions,
                d,
            ).reverse()[k]).version_number == of_date(s.versions, d).len() - k,
{
    let o = of_date(s.versions, d);
    assert forall|k: int| 0 <= k < o.len() implies (#[trigger] o.reverse()[k]).version_number == o.len()
        - k by {
        assert(o.reverse()[k] == o[o.len() - 1 - k]);
    }
}

/// With no bound, the recent entries are all the entries, latest first.
pub proof fn lemma_unbounded_recent_is_everything(es: Seq<EntryView>)
    requires
        sorted_days(es),
    ensures
        past_desc(es, days_before_year(10000)) == es.reverse(),
    decreases es.len(),
{
    if es.len() > 0 {
        let rest = es.drop_first();
        assert forall|a: int, b: int| 0 <= a < b < rest.len() implies key_day(
            #[trigger] rest[a].date,
        ) < key_day(#[trigger] rest[b].date) by {
            assert(rest[a] == es[a + 1] && rest[b] == es[b + 1]);
        }
        assert forall|i: int| 0 <= i < rest.len() implies parse_key(#[trigger] rest[i].date) is Some by {
            assert(rest[i] == es[i + 1]);
        }
        lemma_unbounded_recent_is_everything(rest);
        let c = parse_key(es[0].date)->Some_0;
        assert(parse_key(es[0].date) is Some);
        crate::calendar::lemma_key_year_range(es[0].date);
        crate::calendar::lemma_day_within_year(c.0, c.1, c.2);
        if c.0 < 9999 {
            crate::calendar::lemma_years_increase(c.0, 10000);
        }
        assert(es.reverse() =~= rest.reverse().push(es[0]));
    }
}

/// A well-formed store holds at most one entry per date key.
pub proof fn lemma_one_entry_per_day(s: StoreView)
    requires
        store_wf(s),
    ensures
        forall|i: int, j: int|
            0 <= i < j < s.entries.len() ==> (#[trigger] s.entries[i]).date != (
            #[trigger] s.entries[j]).date,
{
    assert forall|i: int, j: int| 0 <= i < j < s.entries.len() implies (
    #[trigger] s.entries[i]).date != (#[trigger] s.entries[j]).date by {
        assert(key_day(s.entries[i].date) < key_day(s.entries[j].date));
    }
}

/// Two writers that both read `n` as the day's next number: the first append
/// stores version `n`; the second, still holding `n`, is refused (see
/// `try_append_version`), and its one retry, with the number read again,
/// stores `n + 1`. No number of the day is ever held twice.
pub proof fn lemma_concurrent_appends(
    s: StoreView,
    d: Seq<char>,
    c1: Seq<char>,
    c2: Seq<char>,
    t1: Seq<char>,
    t2: Seq<char>,
)
    requires
        store_wf(s),
    ensures
        ({
            let n = next_number(s.versions, d);
            let first = archived(s.versions, d, c1, t1);
            let retried = archived(first, d, c2, t2);
            &&& of_date(first, d).last().version_number == n
            &&& next_number(first, d) != n
            &&& next_number(first, d) == n + 1
            &&& of_date(retried, d).last().version_number == n + 1
            &&& store_wf(StoreView { entries: s.entries, versions: retried })
            &&& forall|i: int, j: int|
                0 <= i < j < of_date(retried, d).len() ==> (#[trigger] of_date(retried, d)[i]).version_number
                    != (#[trigger] of_date(retried, d)[j]).version_number
        }),
{
    let first = archived(s.versions, d, c1, t1);
    lemma_version_numbers(s, d, c1, t1);
    lemma_of_date_push(s.versions, first.last(), d);
    lemma_archived_wf(s, d, c1, t1);
    let s1 = StoreView { entries: s.entries, versions: first };
    lemma_version_numbers(s1, d, c2, t2);
    let retried = archived(first, d, c2, t2);
    lemma_of_date_push(first, retried.last(), d);
    lemma_archived_wf(s1, d, c2, t2);
    let s2 = StoreView { entries: s.entries, versions: retried };
    assert forall|i: int, j: int| 0 <= i < j < of_date(retried, d).len() implies (
    #[trigger] of_date(retried, d)[i]).version_number != (
    #[trigger] of_date(retried, d)[j]).version_number by {
        assert(of_date(s2.versions, d)[i].version_number == i + 1);
        assert(of_date(s2.versions, d)[j].version_number == j + 1);
    }
}

/// A key of a day before today is not today's key: at any instant exactly
/// one key, today's, is current, and every finalised key is not.
pub proof fn lemma_past_key_not_today(key: Seq<char>, t: int)
    requires
        in_range(t),
        parse_key(key) is Some,
        key_day(key) < zone_day(t),
    ensures
        key != today_key(t),
{
    crate::clock::lemma_zone_day_bounds(t);
    crate::clock::lemma_day_exists(zone_day(t));
    let c = crate::clock::civil_of_day(zone_day(t));
    crate::calendar::lemma_key_round_trip(c.0, c.1, c.2);
}

impl DiaryStore {
    pub closed spec fn wf(&self) -> bool {
        &&& store_wf(self@)
        &&& days_of(self.days@, self@.entries)
        &&& self.versions@.len() <= i32::MAX
    }

    /// What a well-formed store shows of itself (see `store_wf`).
    pub proof fn lemma_wf(&self)
        requires
            self.wf(),
        ensures
            store_wf(self@),
    {
    }

    /// An empty diary.
    pub fn new() -> (r: DiaryStore)
        ensures
            r.wf(),
            r@.entries.len() == 0,
            r@.versions.len() == 0,
    {
        let r = DiaryStore { entries: Vec::new(), days: Vec::new(), versions: Vec::new() };
        proof {
            assert forall|d: Seq<char>| #[trigger] of_date(r@.versions, d).len() == 0 by {
                assert(r@.versions.len() == 0);
            }
        }
        r
    }

    /// The entry for `date`, if there is one.
    pub fn get_entry(&self, date: &str) -> (r: Option<DiaryEntry>)
        requires
            self.wf(),
        ensures
            r is Some <==> find_entry(self@.entries, date@) is Some,
            r matches Some(e) ==> find_entry(self@.entries, date@) == Some(e@),
    {
        let ghost es = self@.entries;
        let mut i: usize = self.entries.len();
        assert(es.take(i as int) =~= es);
        while i > 0
            invariant
                es == self@.entries,
                i <= es.len(),
                entry_pos(es, date@) == entry_pos(es.take(i as int), date@),
            decreases i,
        {
            proof {
                assert(es.take(i as int).drop_last() =~= es.take(i - 1));
                assert(es.take(i as int).last() == es[i - 1]);
            }
            if crate::text::str_eq(self.entries[i - 1].date.as_str(), date) {
                return Some(self.entries[i - 1].duplicate());
            }
            i = i - 1;
        }
        None
    }

    /// Writes the entry of `date` (see `upserted`); the archive is untouched.
    fn upsert(&mut self, date: &str, content: &str, now: &str)
        requires
            old(self).wf(),
            parse_key(date@) is Some,
        ensures
            final(self).wf(),
            final(self)@ == (StoreView {
                entries: upserted(old(self)@.entries, date@, content@, now@),
                versions: old(self)@.versions,
            }),
    {
        let ghost es = self@.entries;
        let ghost ds = self.days@;
        let cd = parse_date(date).unwrap();
        let day = crate::calendar::day_number_exec(cd);
        let mut i: usize = 0;
        while i < self.days.len() && self.days[i] < day
            invariant
                self.wf(),
                es == self@.entries,
                ds == self.days@,
                day == key_day(date@),
                i <= es.len(),
                forall|j: int| 0 <= j < i ==> key_day(#[trigger] es[j].date) < day,
            decreases es.len() - i,
        {
            assert(ds[i as int] == key_day(es[i as int].date));
            i = i + 1;
        }
        proof {
            assert forall|j: int| i < j < es.len() implies key_day(#[trigger] es[j].date) > day by {
                assert(key_day(es[i as int].date) < key_day(es[j].date));
                assert(ds[i as int] == key_day(es[i as int].date));
            }
            if i < es.len() {
                assert(ds[i as int] == key_day(es[i as int].date));
            }
        }
        if i < self.days.len() && self.days[i] == day {
            proof {
                assert(parse_key(es[i as int].date) is Some);
                crate::calendar::lemma_same_day_same_key(es[i as int].date, date@);
                lemma_entry_pos_at(es, date@, i as int);
            }
            let created = self.entries[i].created_at.clone();
            let e = DiaryEntry {
                date: String::from_str(date),
                content: String::from_str(content),
                created_at: created,
                updated_at: String::from_str(now),
            };
            let ghost ev = e@;
            self.entries.set(i, e);
            proof {
                assert(self@.entries =~= es.update(i as int, ev));
                lemma_update_sorted(es, ds, i as int, ev);
            }
        } else {
            proof {
                assert forall|j: int| 0 <= j < es.len() implies (#[trigger] es[j]).date != date@ by {
                    assert(key_day(es[j].date) != day);
                }
                lemma_entry_pos_at(es, date@, -1);
                lemma_count_before_sorted(es, day as int, i as int);
            }
            let e = DiaryEntry {
                date: String::from_str(date),
                content: String::from_str(content),
                created_at: String::from_str(now),
                updated_at: String::from_str(now),
            };
            let ghost ev = e@;
            self.entries.insert(i, e);
            self.days.insert(i, day);
            proof {
                assert(self@.entries =~= es.insert(i as int, ev));
                lemma_insert_sorted(es, ds, i as int, ev, day);
            }
        }
        assert(self@.versions =~= old(self)@.versions);
    }

    /// Writes `content` for the day `date` at `now`: when the day already
    /// holds other content, that content is archived first as the day's next
    /// version; writing the content the day already holds archives nothing.
    /// A `date` that is not the key of a real day is refused, and nothing
    /// changes.
    pub fn write_entry(&mut self, date: &str, content: &str, now: &str) -> (r: Result<(), RequestError>)
        requires
            old(self).wf(),
            old(self)@.versions.len() < i32::MAX,
        ensures
            final(self).wf(),
            r is Ok <==> parse_key(date@) is Some,
            r is Ok ==> final(self)@ == written(old(self)@, date@, content@, now@),
            r is Ok ==> find_entry(final(self)@.entries, date@) == Some(
                EntryView {
                    date: date@,
                    content: content@,
                    created_at: match find_entry(old(self)@.entries, date@) {
                        Some(e) => e.created_at,
                        None => now@,
                    },
                    updated_at: now@,
                },
            ),
            r is Ok && (find_entry(old(self)@.entries, date@) is None || find_entry(
                old(self)@.entries,
                date@,
            )->Some_0.content == content@) ==> final(self)@.versions == old(self)@.versions,
            r is Ok && find_entry(old(self)@.entries, date@) is Some && find_entry(
                old(self)@.entries,
                date@,
            )->Some_0.content != content@ ==> of_date(final(self)@.versions, date@) == of_date(old(self)@.versions, date@).push(
                VersionView {
                    id: old(self)@.versions.len() as int + 1,
                    entry_date: date@,
                    content: find_entry(old(self)@.entries, date@)->Some_0.content,
                    version_number: next_number(old(self)@.versions, date@),
                    created_at: now@,
                },
            ),
            r is Err ==> r == Err::<(), RequestError>(RequestError::InvalidDate) && final(self)@ == old(self)@,
    {
        if !crate::calendar::is_valid_date(date) {
            return Err(RequestError::InvalidDate);
        }
        let existing = self.get_entry(date);
        match &existing {
            Some(e) => {
                if !crate::text::str_eq(e.content.as_str(), content) {
                    self.save_version(date, e.content.as_str(), now);
                }
            },
            None => {},
        }
        self.upsert(date, content, now);
        proof {
            let o = old(self)@;
            lemma_upserted_entry(o.entries, date@, content@, now@);
            match find_entry(o.entries, date@) {
                Some(e) => if e.content != content@ {
                    let v = archived(o.versions, date@, e.content, now@).last();
                    lemma_of_date_push(o.versions, v, date@);
                },
                None => {},
            }
        }
        Ok(())
    }

    /// The archived versions of `date`, in the order they were archived.
    fn versions_of(&self, date: &str) -> (r: Vec<DiaryVersion>)
        requires
            self.wf(),
        ensures
            version_views(r@) == of_date(self@.versions, date@),
    {
        let ghost vs = self@.versions;
        let mut out: Vec<DiaryVersion> = Vec::new();
        let mut i: usize = 0;
        while i < self.versions.len()
            invariant
                vs == self@.versions,
                i <= vs.len(),
                version_views(out@) == of_date(vs.take(i as int), date@),
            decreases vs.len() - i,
        {
            proof {
                assert(vs.take(i + 1).drop_last() =~= vs.take(i as int));
                assert(vs[i as int] == self.versions@[i as int]@);
            }
            if crate::text::str_eq(self.versions[i].entry_date.as_str(), date) {
                let v = self.versions[i].duplicate();
                out.push(v);
                proof {
                    assert(version_views(out@) =~= of_date(vs.take(i as int), date@).push(v@));
                }
            }
            i = i + 1;
        }
        assert(vs.take(vs.len() as int) =~= vs);
        out
    }

    /// The archived versions of `date`, newest first.
    pub fn list_versions(&self, date: &str) -> (r: Vec<DiaryVersion>)
        requires
            self.wf(),
        ensures
            version_views(r@) == of_date(self@.versions, date@).reverse(),
    {
        let fwd = self.versions_of(date);
        let mut out: Vec<DiaryVersion> = Vec::new();
        let mut k: usize = 0;
        while k < fwd.len()
            invariant
                k <= fwd@.len(),
                out@.len() == k,
                forall|j: int| 0 <= j < k ==> (#[trigger] out@[j])@ == fwd@[fwd@.len() - 1 - j]@,
            decreases fwd.len() - k,
        {
            out.push(fwd[fwd.len() - 1 - k].duplicate());
            k = k + 1;
        }
        proof {
            let a = version_views(out@);
            let b = of_date(self@.versions, date@).reverse();
            assert(a.len() == b.len());
            assert forall|j: int| 0 <= j < a.len() implies a[j] == b[j] by {
                assert(out@[j]@ == fwd@[fwd@.len() - 1 - j]@);
            }
            assert(a =~= b);
        }
        out
    }

    /// Version `number` of `date`, if it was archived.
    pub fn get_version(&self, date: &str, number: i32) -> (r: Option<DiaryVersion>)
        requires
            self.wf(),
        ensures
            r is Some <==> 1 <= number <= of_date(self@.versions, date@).len(),
            r matches Some(v) ==> v@ == of_date(self@.versions, date@)[number - 1],
    {
        let fwd = self.versions_of(date);
        if number >= 1 && (number as usize) <= fwd.len() {
            let v = fwd[(number - 1) as usize].duplicate();
            proof {
                assert(version_views(fwd@)[number - 1] == fwd@[number - 1]@);
            }
            Some(v)
        } else {
            None
        }
    }

    /// The entries of days before day `t`, latest first, at most `limit`.
    fn entries_before(&self, t: i64, limit: usize) -> (r: Vec<DiaryEntry>)
        requires
            self.wf(),
        ensures
            entry_views(r@) == crate::text::prefix_of(past_desc(self@.entries, t as int), limit as nat),
    {
        let ghost es = self@.entries;
        let mut out: Vec<DiaryEntry> = Vec::new();
        let mut i: usize = self.entries.len();
        assert(es.subrange(i as int, es.len() as int) =~= Seq::<EntryView>::empty());
        while i > 0 && out.len() < limit
            invariant
                self.wf(),
                es == self@.entries,
                i <= es.len(),
                entry_views(out@) == past_desc(es.subrange(i as int, es.len() as int), t as int),
                out@.len() <= limit,
            decreases i,
        {
            let ghost tail = es.subrange(i as int, es.len() as int);
            let ghost tail2 = es.subrange(i - 1, es.len() as int);
            proof {
                assert(tail2.drop_first() =~= tail);
                assert(tail2[0] == es[i - 1]);
                assert(self.days@[i - 1] == key_day(es[i - 1].date));
            }
            if self.days[i - 1] < t {
                let e = self.entries[i - 1].duplicate();
                out.push(e);
                proof {
                    assert(entry_views(out@) =~= past_desc(tail, t as int).push(e@));
                }
            }
            i = i - 1;
        }
        proof {
            lemma_past_prefix(es, i as int, t as int);
            let p = past_desc(es, t as int);
            let q = past_desc(es.subrange(i as int, es.len() as int), t as int);
            assert(es.subrange(0, es.len() as int) =~= es);
            if p.len() <= limit {
                if i > 0 {
                    assert(q.len() == limit);
                }
                assert(q =~= p);
            } else {
                if i == 0 {
                    assert(q =~= p);
                }
                assert(q.len() == limit);
                assert(q =~= p.take(limit as int));
            }
        }
        out
    }

    /// The entries of days before today in the fixed zone at `now`, latest
    /// first, at most `limit` of them: the finalised entries.
    pub fn list_past_entries(&self, now: i64, limit: usize) -> (r: Vec<DiaryEntry>)
        requires
            self.wf(),
            in_range(now as int),
        ensures
            entry_views(r@) == crate::text::prefix_of(past_desc(self@.entries, zone_day(now as int)), limit as nat),
    {
        let c = crate::clock::civil_utc(now + ZONE_OFFSET_SECS);
        let today = crate::calendar::day_number_exec(c.date);
        self.entries_before(today, limit)
    }

    /// The latest entries, at most `limit`, latest first: all of them, or
    /// only those of days before the day that `before` names.
    pub fn list_recent(&self, before: Option<&str>, limit: usize) -> (r: Vec<DiaryEntry>)
        requires
            self.wf(),
        ensures
            entry_views(r@) == crate::text::prefix_of(
                past_desc(
                    self@.entries,
                    match before {
                        Some(b) => key_day(b@),
                        None => days_before_year(10000),
                    },
                ),
                limit as nat,
            ),
    {
        let bound: i64 = match before {
            Some(b) => match parse_date(b) {
                Some(d) => crate::calendar::day_number_exec(d),
                None => -1,
            },
            None => 3652425,
        };
        assert(days_before_year(10000) == 3652425);
        self.entries_before(bound, limit)
    }

    /// Writes `content` as today's entry at instant `now` (Unix seconds):
    /// today's key in the fixed zone, stamped with the stored form of `now`.
    pub fn upsert_today_entry(&mut self, content: &str, now: i64)
        requires
            old(self).wf(),
            in_range(now as int),
            -62167219200 <= now,
            old(self)@.versions.len() < i32::MAX,
        ensures
            final(self).wf(),
            final(self)@ == written(old(self)@, today_key(now as int), content@, timestamp_text(now as int)),
            find_entry(final(self)@.entries, today_key(now as int)) == Some(
                EntryView {
                    date: today_key(now as int),
                    content: content@,
                    created_at: match find_entry(old(self)@.entries, today_key(now as int)) {
                        Some(e) => e.created_at,
                        None => timestamp_text(now as int),
                    },
                    updated_at: timestamp_text(now as int),
                },
            ),
            find_entry(old(self)@.entries, today_key(now as int)) is None || find_entry(
                old(self)@.entries,
                today_key(now as int),
            )->Some_0.content == content@ ==> final(self)@.versions == old(self)@.versions,
            find_entry(old(self)@.entries, today_key(now as int)) is Some && find_entry(
                old(self)@.entries,
                today_key(now as int),
            )->Some_0.content != content@ ==> of_date(final(self)@.versions, today_key(now as int))
                == of_date(old(self)@.versions, today_key(now as int)).push(
                VersionView {
                    id: old(self)@.versions.len() as int + 1,
                    entry_date: today_key(now as int),
                    content: find_entry(old(self)@.entries, today_key(now as int))->Some_0.content,
                    version_number: next_number(old(self)@.versions, today_key(now as int)),
                    created_at: timestamp_text(now as int),
                },
            ),
    {
        let today = crate::clock::today_jst(now);
        let stamp = crate::clock::now_iso8601(now);
        let outcome = self.write_entry(today.as_str(), content, stamp.as_str());
        assert(outcome is Ok);
    }

    /// The number that the next archived version of `date` gets.
    pub fn get_next_version_number(&self, date: &str) -> (r: i64)
        requires
            self.wf(),
        ensures
            r == next_number(self@.versions, date@),
    {
        let ghost vs = self@.versions;
        let mut count: i64 = 0;
        let mut i: usize = 0;
        while i < self.versions.len()
            invariant
                vs == self@.versions,
                i <= vs.len(),
                count == of_date(vs.take(i as int), date@).len(),
                count <= i,
                vs.len() <= i32::MAX,
            decreases vs.len() - i,
        {
            proof {
                assert(vs.take(i + 1).drop_last() =~= vs.take(i as int));
            }
            if crate::text::str_eq(self.versions[i].entry_date.as_str(), date) {
                count = count + 1;
            }
            i = i + 1;
        }
        assert(vs.take(vs.len() as int) =~= vs);
        count + 1
    }

    /// Stores `content` as version `number` of `date`, archived at `now`. The
    /// number must be the next one for that day, as read in the same step: a
    /// number that another write has taken is refused.
    pub fn try_append_version(&mut self, date: &str, content: &str, number: i32, now: &str) -> (r:
        Result<(), ArchiveError>)
        requires
            old(self).wf(),
            old(self)@.versions.len() < i32::MAX,
        ensures
            final(self).wf(),
            r is Ok <==> number == next_number(old(self)@.versions, date@),
            r is Ok ==> final(self)@ == (StoreView {
                entries: old(self)@.entries,
                versions: archived(old(self)@.versions, date@, content@, now@),
            }),
            r is Err ==> final(self)@ == old(self)@,
    {
        let next = self.get_next_version_number(date);
        if number as i64 != next {
            return Err(ArchiveError::VersionTaken);
        }
        let v = DiaryVersion {
            id: self.versions.len() as i64 + 1,
            entry_date: String::from_str(date),
            content: String::from_str(content),
            version_number: number,
            created_at: String::from_str(now),
        };
        let ghost old_view = self@;
        self.versions.push(v);
        proof {
            lemma_archived_wf(old_view, date@, content@, now@);
            assert(self@.versions =~= archived(old_view.versions, date@, content@, now@));
            assert(self@.entries =~= old_view.entries);
        }
        Ok(())
    }

    /// Stores `content` as the next version of `date`, archived at `now`,
    /// and returns its number.
    pub fn save_version(&mut self, date: &str, content: &str, now: &str) -> (r: i32)
        requires
            old(self).wf(),
            old(self)@.versions.len() < i32::MAX,
        ensures
            final(self).wf(),
            r == next_number(old(self)@.versions, date@),
            final(self)@ == (StoreView {
                entries: old(self)@.entries,
                versions: archived(old(self)@.versions, date@, content@, now@),
            }),
    {
        let next = self.get_next_version_number(date);
        proof {
            lemma_of_date_len(self@.versions, date@);
        }
        let number = next as i32;
        let r = self.try_append_version(date, content, number, now);
        number
    }
}

proof fn lemma_of_date_len(vs: Seq<VersionView>, d: Seq<char>)
    ensures
        of_date(vs, d).len() <= vs.len(),
    decreases vs.len(),
{
    if vs.len() > 0 {
        lemma_of_date_len(vs.drop_last(), d);
    }
}

} // verus!
