use vstd::prelude::*;
use crate::clock::{in_range, today_jst, today_key};
use crate::escape::{escape_html_text, escape_xml_text, push_html, push_xml};
use crate::models::{
    entry_view_seq, preview_of, preview_text, DiaryEntry, DiaryEntrySummary, DiaryVersion,
    EntryView, VersionSummary,
};
use crate::timestamp::{datetime_to_rfc2822, decimal, feed_date, push_decimal};

verus! {

/// The page head up to the title.
pub const HEAD_OPEN: &'static str = "<!DOCTYPE html>\n<html lang=\"ja\">\n<head>\n    <meta charset=\"UTF-8\">\n    <meta name=\"viewport\" content=\"width=device-width, initial-scale=1.0\">\n    <title>";

/// The rest of the page head: site name, feed link and style sheet.
pub const HEAD_CLOSE: &'static str = " - 誰かが書く日記</title>\n    <link rel=\"alternate\" type=\"application/rss+xml\" title=\"誰かが書く日記 RSS\" href=\"/feed\">\n    <style>\n        * { box-sizing: border-box; margin: 0; padding: 0; }\n        body {\n            font-family: -apple-system, BlinkMacSystemFont, \"Segoe UI\", Roboto, \"Hiragino Sans\", \"Noto Sans CJK JP\", sans-serif;\n            max-width: 800px;\n            margin: 0 auto;\n            padding: 20px;\n            line-height: 1.6;\n            background-color: #fafafa;\n            color: #333;\n        }\n        h1 {\n            font-size: 1.8em;\n            margin-bottom: 10px;\n            color: #2c3e50;\n        }\n        nav {\n            margin-bottom: 20px;\n            padding-bottom: 10px;\n            border-bottom: 1px solid #ddd;\n        }\n        nav a {\n            color: #3498db;\n            text-decoration: none;\n            margin-right: 15px;\n        }\n        nav a:hover { text-decoration: underline; }\n        .date {\n            color: #666;\n            font-size: 0.95em;\n            margin-bottom: 15px;\n        }\n        textarea {\n            width: 100%;\n            height: 300px;\n            font-size: 16px;\n            padding: 15px;\n            border: 1px solid #ddd;\n            border-radius: 8px;\n            resize: vertical;\n            font-family: inherit;\n            line-height: 1.6;\n        }\n        textarea:focus {\n            outline: none;\n            border-color: #3498db;\n            box-shadow: 0 0 0 3px rgba(52, 152, 219, 0.1);\n        }\n        button {\n            padding: 12px 24px;\n            font-size: 16px;\n            cursor: pointer;\n            background-color: #3498db;\n            color: white;\n            border: none;\n            border-radius: 6px;\n            margin-top: 15px;\n        }\n        button:hover { background-color: #2980b9; }\n        .hint {\n            font-size: 0.85em;\n            color: #888;\n            margin-top: 10px;\n        }\n        .entry-list {\n            list-style: none;\n        }\n        .entry-list li {\n            padding: 15px;\n            margin-bottom: 10px;\n            background: white;\n            border-radius: 8px;\n            border: 1px solid #eee;\n        }\n        .entry-list li:hover {\n            border-color: #3498db;\n        }\n        .entry-list a {\n            text-decoration: none;\n            color: inherit;\n            display: block;\n        }\n        .entry-date {\n            font-weight: bold;\n            color: #2c3e50;\n            margin-bottom: 5px;\n        }\n        .entry-preview {\n            color: #666;\n            font-size: 0.9em;\n        }\n        .content {\n            background: white;\n            padding: 20px;\n            border-radius: 8px;\n            border: 1px solid #eee;\n            white-space: pre-wrap;\n            word-wrap: break-word;\n        }\n        .empty {\n            color: #888;\n            font-style: italic;\n            padding: 40px;\n            text-align: center;\n        }\n        .toast {\n            position: fixed;\n            top: 20px;\n            right: 20px;\n            padding: 15px 25px;\n            background-color: #2ecc71;\n            color: white;\n            border-radius: 8px;\n            box-shadow: 0 4px 12px rgba(0,0,0,0.15);\n            font-size: 14px;\n            z-index: 1000;\n            animation: toast-slide-in 0.3s ease, toast-fade-out 0.3s ease 2.7s;\n            opacity: 0;\n            animation-fill-mode: forwards;\n        }\n        .toast.error {\n            background-color: #e74c3c;\n        }\n        @keyframes toast-slide-in {\n            from { transform: translateX(100%); opacity: 0; }\n            to { transform: translateX(0); opacity: 1; }\n        }\n        @keyframes toast-fade-out {\n            from { opacity: 1; }\n            to { opacity: 0; }\n        }\n    </style>\n</head>\n<body>";

/// The navigation bar of the public pages.
pub const NAV: &'static str = "<nav>\n        <a href=\"/\">今日の日記を書く</a>\n        <a href=\"/entries\">過去の日記</a>\n        <a href=\"/a\">これはなにか</a>\n        <a href=\"/feed\">RSS</a>\n    </nav>";

/// The end of every page.
pub const FOOTER: &'static str = "</body></html>";

/// Line break and indent between page sections.
pub const BREAK: &'static str = "\n    ";

pub const HOME_TITLE: &'static str = "今日の日記";

/// Home page: heading, up to today's date.
pub const HOME_INTRO: &'static str = "\n    <h1>誰かが書く日記</h1>\n    <p class=\"date\">";

/// Home page: the form, up to the text area's content.
pub const HOME_FORM: &'static str = "の日記</p>\n    <form id=\"diary-form\">\n        <textarea name=\"content\" placeholder=\"今日の日記を書いてください...\">";

/// Home page: the rest of the form and the script, up to the site key.
pub const HOME_WIDGET: &'static str = "</textarea>\n        <br>\n        <div id=\"turnstile-container\"></div>\n        <button type=\"submit\">保存する</button>\n    </form>\n    <p class=\"hint\">0時（JST）になると編集できなくなります</p>\n    <script>\n    var turnstileWidgetId = null;\n    function initTurnstile() {\n        if (typeof turnstile !== 'undefined' && document.getElementById('turnstile-container')) {\n            turnstileWidgetId = turnstile.render('#turnstile-container', {\n                sitekey: '";

/// Home page: the rest of the script.
pub const HOME_SCRIPT: &'static str = "',\n                callback: function(token) {},\n                'error-callback': function() {\n                    console.error('Turnstile error');\n                }\n            });\n        }\n    }\n    document.getElementById('diary-form').addEventListener('submit', function(e) {\n        e.preventDefault();\n        var form = this;\n        var btn = form.querySelector('button');\n        var token = turnstileWidgetId ? turnstile.getResponse(turnstileWidgetId) : null;\n        if (!token) {\n            alert('認証処理中です。少々お待ちください。');\n            return;\n        }\n        btn.disabled = true;\n        btn.textContent = '保存中...';\n        fetch('/api/today', {\n            method: 'POST',\n            headers: { 'Content-Type': 'application/json' },\n            body: JSON.stringify({\n                content: form.content.value,\n                turnstile_token: token\n            })\n        }).then(function(res) {\n            if (res.ok) {\n                var toast = document.createElement('div');\n                toast.className = 'toast';\n                toast.textContent = '保存しました';\n                document.body.appendChild(toast);\n                setTimeout(function() { toast.remove(); }, 3000);\n                turnstile.reset(turnstileWidgetId);\n            } else if (res.status === 429) {\n                alert('投稿制限中です。しばらくお待ちください。');\n            } else {\n                alert('保存に失敗しました');\n            }\n        }).catch(function() {\n            alert('保存に失敗しました');\n        }).finally(function() {\n            btn.disabled = false;\n            btn.textContent = '保存する';\n        });\n    });\n    </script>\n    <script src=\"https://challenges.cloudflare.com/turnstile/v0/api.js?render=explicit&onload=initTurnstile\" async defer></script>\n";

pub const ARCHIVE_EMPTY: &'static str = "<p class=\"empty\">まだ過去の日記はありません</p>";

pub const ARCHIVE_ITEM_LINK: &'static str = "<li><a href=\"/entries/";

pub const ARCHIVE_ITEM_DATE: &'static str = "\">\n                        <div class=\"entry-date\">";

pub const ARCHIVE_ITEM_PREVIEW: &'static str = "</div>\n                        <div class=\"entry-preview\">";

pub const ARCHIVE_ITEM_END: &'static str = "</div>\n                    </a></li>";

pub const LIST_OPEN: &'static str = "<ul class=\"entry-list\">";

pub const LIST_CLOSE: &'static str = "</ul>";

pub const ARCHIVE_TITLE: &'static str = "過去の日記";

pub const ARCHIVE_HEADING: &'static str = "\n    <h1>過去の日記</h1>\n    ";

pub const NEWLINE: &'static str = "\n";

pub const EDIT_LINK: &'static str = "<p><a href=\"/\">編集する</a></p>";

/// Start of a page heading.
pub const HEADING_OPEN: &'static str = "\n    <h1>";

pub const ENTRY_TITLE_SUFFIX: &'static str = "の日記";

pub const ENTRY_BODY: &'static str = "の日記</h1>\n    <div class=\"content\">";

pub const ENTRY_AFTER: &'static str = "</div>\n    ";

pub const NOT_FOUND_TITLE: &'static str = "見つかりません";

pub const NOT_FOUND_BODY: &'static str = "\n    <h1>日記が見つかりません</h1>\n    <p class=\"empty\">この日の日記は存在しません。</p>\n";

pub const ABOUT_TITLE: &'static str = "これはなにか";

pub const ABOUT_BODY: &'static str = "\n    <h1>これはなにか</h1>\n    <div class=\"content\">\n        <p>「自分が書かなければおそらく誰かが書く日記」</p>\n        <p>ここでは日記をつけることができます。しかしその日記は日付がかわるその瞬間までインターネットにアクセスできるすべての存在（それは人間とも限りません）が書くことができます。</p>\n        <p>どこかの誰か（重ねていいますがそれは人間とは限りません）が書き残したものを跡形もなく消し去って、今まさにテクストエリアにフォーカスを持っている存在のその瞬間を記録することができます。どんな美しい言葉でさえも今という瞬間に存在する言葉を超えることはできないのです。</p>\n        <p>たとえそれがどんなに汚ない言葉でも例外はありません。</p>\n        <p>日付を越えるという経験をした言葉は（スーパーユーザではない限り）2度と手をいれることのできない存在になります。</p>\n    </div>\n    <p style=\"text-align: right; margin-top: 20px;\"><a href=\"/\">トップ</a></p>\n";

pub const RSS_ITEM_TITLE: &'static str = "    <item>\n      <title>";

pub const RSS_ITEM_LINK: &'static str = "の日記</title>\n      <link>";

pub const ENTRIES_PATH: &'static str = "/entries/";

pub const RSS_ITEM_GUID: &'static str = "</link>\n      <guid>";

pub const RSS_ITEM_DATE: &'static str = "</guid>\n      <pubDate>";

pub const RSS_ITEM_DESCRIPTION: &'static str = "</pubDate>\n      <description>";

pub const RSS_ITEM_END: &'static str = "</description>\n    </item>";

pub const RSS_OPEN: &'static str = "<?xml version=\"1.0\" encoding=\"UTF-8\"?>\n<rss version=\"2.0\">\n  <channel>\n    <title>誰かが書く日記</title>\n    <link>";

pub const RSS_CHANNEL: &'static str = "</link>\n    <description>自分が書かなければおそらく誰かが書く日記</description>\n    <language>ja</language>\n";

pub const RSS_CLOSE: &'static str = "\n  </channel>\n</rss>";

pub const ADMIN_NAV_OPEN: &'static str = "<nav>\n        <a href=\"/admin/versions?token=";

pub const ADMIN_NAV_CLOSE: &'static str = "\">バージョン履歴</a>\n        <a href=\"/\">トップページ</a>\n    </nav>";

pub const ADMIN_INDEX_TITLE: &'static str = "バージョン履歴";

pub const ADMIN_INDEX_FORM: &'static str = "\n    <h1>バージョン履歴 - 管理者ページ</h1>\n    <form method=\"get\" action=\"/admin/entries/";

pub const ADMIN_INDEX_TOKEN: &'static str = "/versions\">\n        <input type=\"hidden\" name=\"token\" value=\"";

pub const ADMIN_INDEX_DATE: &'static str = "\">\n        <label for=\"date\">日付を入力:</label>\n        <input type=\"date\" id=\"date\" name=\"date\" value=\"";

pub const ADMIN_INDEX_END: &'static str = "\" required\n               onchange=\"this.form.action='/admin/entries/'+this.value+'/versions'\">\n        <button type=\"submit\">表示</button>\n    </form>\n";

pub const ADMIN_CURRENT_OPEN: &'static str = "<h2>現在の内容</h2>\n            <div class=\"content\">";

pub const ADMIN_CURRENT_CLOSE: &'static str = "</div>";

pub const ADMIN_NO_ENTRY: &'static str = "<p class=\"empty\">この日付の日記はありません</p>";

pub const ADMIN_NO_VERSIONS: &'static str = "<p class=\"empty\">バージョン履歴はありません</p>";

pub const ADMIN_ITEM_LINK: &'static str = "<li><a href=\"/admin/entries/";

pub const ADMIN_ITEM_VERSION: &'static str = "/versions/";

pub const ADMIN_ITEM_TOKEN: &'static str = "?token=";

pub const ADMIN_ITEM_LABEL: &'static str = "\">\n                        <div class=\"entry-date\">バージョン ";

pub const ADMIN_ITEM_OPEN_PAREN: &'static str = " (";

pub const ADMIN_ITEM_PREVIEW: &'static str = ")</div>\n                        <div class=\"entry-preview\">";

pub const ADMIN_ITEM_END: &'static str = "</div>\n                    </a></li>";

pub const ADMIN_LIST_TITLE_SUFFIX: &'static str = " バージョン履歴";

pub const ADMIN_LIST_HEADING: &'static str = "のバージョン履歴</h1>\n    ";

pub const ADMIN_LIST_PAST: &'static str = "\n    <h2>過去のバージョン</h2>\n    ";

pub const ADMIN_LIST_OTHER: &'static str = "\n    <p><a href=\"/admin/versions?token=";

pub const ADMIN_LIST_END: &'static str = "\">別の日付を選択</a></p>\n";

pub const ADMIN_DETAIL_TITLE_MID: &'static str = " バージョン";

pub const ADMIN_DETAIL_VERSION: &'static str = "の日記 - バージョン ";

pub const ADMIN_DETAIL_SAVED: &'static str = "</h1>\n    <p class=\"date\">保存日時: ";

pub const ADMIN_DETAIL_CONTENT: &'static str = "</p>\n    <div class=\"content\">";

pub const ADMIN_DETAIL_BACK: &'static str = "</div>\n    <p><a href=\"/admin/entries/";

pub const ADMIN_DETAIL_TOKEN: &'static str = "/versions?token=";

pub const ADMIN_DETAIL_END: &'static str = "\">バージョン一覧に戻る</a></p>\n";


/// Number of characters of an entry that a feed item shows.
pub const FEED_PREVIEW_CHARS: usize = 200;

/// Lines joined by line breaks.
pub open spec fn join_lines(items: Seq<Seq<char>>) -> Seq<char>
    decreases items.len(),
{
    if items.len() == 0 {
        Seq::empty()
    } else if items.len() == 1 {
        items[0]
    } else {
        join_lines(items.drop_last()) + NEWLINE@ + items.last()
    }
}

/// `n` in decimal, with a minus sign when negative.
pub open spec fn int_text(n: int) -> Seq<char> {
    if n < 0 {
        seq!['-'] + decimal((-n) as nat)
    } else {
        decimal(n as nat)
    }
}

fn push_int(out: &mut String, n: i32)
    ensures
        final(out)@ == old(out)@ + int_text(n as int),
{
    if n < 0 {
        crate::text::push_char(out, '-');
        push_decimal(out, (-(n as i64)) as u32);
    } else {
        push_decimal(out, n as u32);
    }
    assert(final(out)@ =~= old(out)@ + int_text(n as int));
}

/// The head of a page titled `title`.
pub open spec fn head_text(title: Seq<char>) -> Seq<char> {
    HEAD_OPEN@ + escape_html_text(title) + HEAD_CLOSE@
}

fn push_head(out: &mut String, title: &str)
    ensures
        final(out)@ == old(out)@ + head_text(title@),
{
    out.append(HEAD_OPEN);
    push_html(out, title);
    out.append(HEAD_CLOSE);
    assert(final(out)@ =~= old(out)@ + head_text(title@));
}

/// The head of a page titled `title`, with the style sheet of the site.
pub fn html_head(title: &str) -> (r: String)
    ensures
        r@ == head_text(title@),
{
    let mut r = String::new();
    push_head(&mut r, title);
    assert(r@ =~= head_text(title@));
    r
}

/// One feed item: title and link from the date key, the publication date
/// from the time of the last write, and the start of the text.
pub open spec fn rss_item(e: EntryView, base: Seq<char>) -> Seq<char> {
    RSS_ITEM_TITLE@ + escape_xml_text(e.date) + RSS_ITEM_LINK@ + escape_xml_text(base) + ENTRIES_PATH@
        + escape_xml_text(e.date) + RSS_ITEM_GUID@ + escape_xml_text(base) + ENTRIES_PATH@
        + escape_xml_text(e.date)
        + RSS_ITEM_DATE@ + feed_date(e.updated_at) + RSS_ITEM_DESCRIPTION@ + escape_xml_text(
        preview_of(e.content, FEED_PREVIEW_CHARS as nat),
    ) + RSS_ITEM_END@
}

pub open spec fn rss_items(es: Seq<EntryView>, base: Seq<char>) -> Seq<Seq<char>> {
    es.map_values(|e: EntryView| rss_item(e, base))
}

/// The RSS document of the given entries.
pub open spec fn rss_text(es: Seq<EntryView>, base: Seq<char>) -> Seq<char> {
    RSS_OPEN@ + escape_xml_text(base) + RSS_CHANNEL@ + join_lines(rss_items(es, base)) + RSS_CLOSE@
}

fn push_rss_item(out: &mut String, e: &DiaryEntry, base_url: &str)
    ensures
        final(out)@ == old(out)@ + rss_item(e@, base_url@),
{
    out.append(RSS_ITEM_TITLE);
    push_xml(out, e.date.as_str());
    out.append(RSS_ITEM_LINK);
    push_xml(out, base_url);
    out.append(ENTRIES_PATH);
    push_xml(out, e.date.as_str());
    out.append(RSS_ITEM_GUID);
    push_xml(out, base_url);
    out.append(ENTRIES_PATH);
    push_xml(out, e.date.as_str());
    out.append(RSS_ITEM_DATE);
    let date = datetime_to_rfc2822(e.updated_at.as_str());
    out.append(date.as_str());
    out.append(RSS_ITEM_DESCRIPTION);
    let description = preview_text(e.content.as_str(), FEED_PREVIEW_CHARS);
    push_xml(out, description.as_str());
    out.append(RSS_ITEM_END);
    assert(final(out)@ =~= old(out)@ + rss_item(e@, base_url@));
}

/// The RSS feed of finalised entries, in the order given; `base_url` is the
/// site's address, without a trailing slash. Every text field, the address
/// included, is escaped for XML.
pub fn render_rss(entries: &[DiaryEntry], base_url: &str) -> (r: String)
    ensures
        r@ == rss_text(entry_view_seq(entries@), base_url@),
{
    let ghost es = entry_view_seq(entries@);
    let mut r = String::new();
    r.append(RSS_OPEN);
    push_xml(&mut r, base_url);
    r.append(RSS_CHANNEL);
    let ghost start = r@;
    let mut i: usize = 0;
    while i < entries.len()
        invariant
            es == entry_view_seq(entries@),
            i <= entries@.len(),
            r@ == start + join_lines(rss_items(es.take(i as int), base_url@)),
        decreases entries.len() - i,
    {
        if i > 0 {
            r.append(NEWLINE);
        }
        push_rss_item(&mut r, &entries[i], base_url);
        proof {
            let items = rss_items(es.take(i + 1), base_url@);
            assert(items.drop_last() =~= rss_items(es.take(i as int), base_url@));
            assert(items.last() == rss_item(entries@[i as int]@, base_url@));
            if i == 0 {
                assert(items.len() == 1);
            }
            assert(r@ =~= start + join_lines(items));
        }
        i = i + 1;
    }
    assert(es.take(entries@.len() as int) =~= es);
    r.append(RSS_CLOSE);
    assert(r@ =~= rss_text(es, base_url@));
    r
}

/// The home page: today's form, holding today's text if there is any.
pub open spec fn home_page(today: Seq<char>, content_html: Seq<char>, key_html: Seq<char>) -> Seq<
    char,
> {
    head_text(HOME_TITLE@) + BREAK@ + NAV@ + HOME_INTRO@ + today + HOME_FORM@ + content_html
        + HOME_WIDGET@ + key_html + HOME_SCRIPT@ + FOOTER@
}

/// The home page at instant `now`, with today's entry if there is one and
/// the site key of the challenge widget.
pub fn render_home(entry: Option<&DiaryEntry>, turnstile_site_key: &str, now: i64) -> (r: String)
    requires
        in_range(now as int),
    ensures
        r@ == home_page(
            today_key(now as int),
            match entry {
                Some(e) => escape_html_text(e.content@),
                None => Seq::empty(),
            },
            escape_html_text(turnstile_site_key@),
        ),
{
    let today = today_jst(now);
    let mut r = String::new();
    push_head(&mut r, HOME_TITLE);
    r.append(BREAK);
    r.append(NAV);
    r.append(HOME_INTRO);
    r.append(today.as_str());
    r.append(HOME_FORM);
    match entry {
        Some(e) => push_html(&mut r, e.content.as_str()),
        None => {},
    }
    r.append(HOME_WIDGET);
    push_html(&mut r, turnstile_site_key);
    r.append(HOME_SCRIPT);
    r.append(FOOTER);
    assert(r@ =~= home_page(
        today_key(now as int),
        match entry {
            Some(e) => escape_html_text(e.content@),
            None => Seq::empty(),
        },
        escape_html_text(turnstile_site_key@),
    ));
    r
}

pub open spec fn archive_item(e: DiaryEntrySummary) -> Seq<char> {
    ARCHIVE_ITEM_LINK@ + escape_html_text(e.date@) + ARCHIVE_ITEM_DATE@ + escape_html_text(e.date@)
        + ARCHIVE_ITEM_PREVIEW@ + escape_html_text(e.preview@) + ARCHIVE_ITEM_END@
}

pub open spec fn archive_body(es: Seq<DiaryEntrySummary>) -> Seq<char> {
    if es.len() == 0 {
        ARCHIVE_EMPTY@
    } else {
        LIST_OPEN@ + join_lines(es.map_values(|e: DiaryEntrySummary| archive_item(e))) + LIST_CLOSE@
    }
}

/// The list of past entries.
pub open spec fn archive_page(es: Seq<DiaryEntrySummary>) -> Seq<char> {
    head_text(ARCHIVE_TITLE@) + BREAK@ + NAV@ + ARCHIVE_HEADING@ + archive_body(es) + NEWLINE@
        + FOOTER@
}

fn push_archive_item(out: &mut String, e: &DiaryEntrySummary)
    ensures
        final(out)@ == old(out)@ + archive_item(*e),
{
    out.append(ARCHIVE_ITEM_LINK);
    push_html(out, e.date.as_str());
    out.append(ARCHIVE_ITEM_DATE);
    push_html(out, e.date.as_str());
    out.append(ARCHIVE_ITEM_PREVIEW);
    push_html(out, e.preview.as_str());
    out.append(ARCHIVE_ITEM_END);
    assert(final(out)@ =~= old(out)@ + archive_item(*e));
}

/// The page that lists past entries by date, with previews.
pub fn render_archive(entries: &[DiaryEntrySummary]) -> (r: String)
    ensures
        r@ == archive_page(entries@),
{
    let mut r = String::new();
    push_head(&mut r, ARCHIVE_TITLE);
    r.append(BREAK);
    r.append(NAV);
    r.append(ARCHIVE_HEADING);
    let ghost before = r@;
    if entries.len() == 0 {
        r.append(ARCHIVE_EMPTY);
    } else {
        r.append(LIST_OPEN);
        let ghost start = r@;
        let mut i: usize = 0;
        while i < entries.len()
            invariant
                i <= entries@.len(),
                r@ == start + join_lines(
                    entries@.take(i as int).map_values(|e: DiaryEntrySummary| archive_item(e)),
                ),
            decreases entries.len() - i,
        {
            if i > 0 {
                r.append(NEWLINE);
            }
            push_archive_item(&mut r, &entries[i]);
            proof {
                let items = entries@.take(i + 1).map_values(|e: DiaryEntrySummary| archive_item(e));
                assert(items.drop_last() =~= entries@.take(i as int).map_values(
                    |e: DiaryEntrySummary| archive_item(e),
                ));
                if i == 0 {
                    assert(items.len() == 1);
                }
                assert(r@ =~= start + join_lines(items));
            }
            i = i + 1;
        }
        assert(entries@.take(entries@.len() as int) =~= entries@);
        r.append(LIST_CLOSE);
    }
    assert(r@ =~= before + archive_body(entries@));
    r.append(NEWLINE);
    r.append(FOOTER);
    assert(r@ =~= archive_page(entries@));
    r
}

/// The page of one entry, with a link to the form while it is still today's.
pub open spec fn entry_page(e: EntryView, can_edit: bool) -> Seq<char> {
    head_text(e.date + ENTRY_TITLE_SUFFIX@) + BREAK@ + NAV@ + HEADING_OPEN@ + escape_html_text(e.date)
        + ENTRY_BODY@ + escape_html_text(e.content) + ENTRY_AFTER@ + (if can_edit {
        EDIT_LINK@
    } else {
        Seq::empty()
    }) + NEWLINE@ + FOOTER@
}

pub fn render_entry(entry: &DiaryEntry, can_edit: bool) -> (r: String)
    ensures
        r@ == entry_page(entry@, can_edit),
{
    let mut title = entry.date.clone();
    title.append(ENTRY_TITLE_SUFFIX);
    let mut r = String::new();
    push_head(&mut r, title.as_str());
    r.append(BREAK);
    r.append(NAV);
    r.append(HEADING_OPEN);
    push_html(&mut r, entry.date.as_str());
    r.append(ENTRY_BODY);
    push_html(&mut r, entry.content.as_str());
    r.append(ENTRY_AFTER);
    if can_edit {
        r.append(EDIT_LINK);
    }
    r.append(NEWLINE);
    r.append(FOOTER);
    assert(r@ =~= entry_page(entry@, can_edit));
    r
}

pub open spec fn not_found_page() -> Seq<char> {
    head_text(NOT_FOUND_TITLE@) + BREAK@ + NAV@ + NOT_FOUND_BODY@ + FOOTER@
}

/// The page for a day that has no entry.
pub fn render_not_found() -> (r: String)
    ensures
        r@ == not_found_page(),
{
    let mut r = String::new();
    push_head(&mut r, NOT_FOUND_TITLE);
    r.append(BREAK);
    r.append(NAV);
    r.append(NOT_FOUND_BODY);
    r.append(FOOTER);
    assert(r@ =~= not_found_page());
    r
}

pub open spec fn about_page() -> Seq<char> {
    head_text(ABOUT_TITLE@) + BREAK@ + NAV@ + ABOUT_BODY@ + FOOTER@
}

/// The page that explains the diary.
pub fn render_about() -> (r: String)
    ensures
        r@ == about_page(),
{
    let mut r = String::new();
    push_head(&mut r, ABOUT_TITLE);
    r.append(BREAK);
    r.append(NAV);
    r.append(ABOUT_BODY);
    r.append(FOOTER);
    assert(r@ =~= about_page());
    r
}

/// The navigation bar of the administration pages; the token goes into the
/// link escaped for HTML.
pub open spec fn admin_nav_text(token: Seq<char>) -> Seq<char> {
    ADMIN_NAV_OPEN@ + escape_html_text(token) + ADMIN_NAV_CLOSE@
}

pub fn admin_nav(token: &str) -> (r: String)
    ensures
        r@ == admin_nav_text(token@),
{
    let mut r = String::new();
    r.append(ADMIN_NAV_OPEN);
    push_html(&mut r, token);
    r.append(ADMIN_NAV_CLOSE);
    assert(r@ =~= admin_nav_text(token@));
    r
}

pub open spec fn admin_index_page(today: Seq<char>, token: Seq<char>) -> Seq<char> {
    head_text(ADMIN_INDEX_TITLE@) + BREAK@ + admin_nav_text(token) + ADMIN_INDEX_FORM@ + today
        + ADMIN_INDEX_TOKEN@ + escape_html_text(token) + ADMIN_INDEX_DATE@ + today + ADMIN_INDEX_END@
        + FOOTER@
}

/// The administration page that picks a day, today at instant `now` first.
pub fn render_admin_versions_index(token: &str, now: i64) -> (r: String)
    requires
        in_range(now as int),
    ensures
        r@ == admin_index_page(today_key(now as int), token@),
{
    let today = today_jst(now);
    let mut r = String::new();
    push_head(&mut r, ADMIN_INDEX_TITLE);
    r.append(BREAK);
    let nav = admin_nav(token);
    r.append(nav.as_str());
    r.append(ADMIN_INDEX_FORM);
    r.append(today.as_str());
    r.append(ADMIN_INDEX_TOKEN);
    push_html(&mut r, token);
    r.append(ADMIN_INDEX_DATE);
    r.append(today.as_str());
    r.append(ADMIN_INDEX_END);
    r.append(FOOTER);
    assert(r@ =~= admin_index_page(today_key(now as int), token@));
    r
}

pub open spec fn admin_version_item(v: VersionSummary, date: Seq<char>, token: Seq<char>) -> Seq<
    char,
> {
    ADMIN_ITEM_LINK@ + escape_html_text(date) + ADMIN_ITEM_VERSION@ + int_text(
        v.version_number as int,
    ) + ADMIN_ITEM_TOKEN@ + escape_html_text(token) + ADMIN_ITEM_LABEL@ + int_text(
        v.version_number as int,
    ) + ADMIN_ITEM_OPEN_PAREN@ + escape_html_text(v.created_at@) + ADMIN_ITEM_PREVIEW@
        + escape_html_text(v.preview@) + ADMIN_ITEM_END@
}

pub open spec fn admin_versions_body(vs: Seq<VersionSummary>, date: Seq<char>, token: Seq<char>) -> Seq<
    char,
> {
    if vs.len() == 0 {
        ADMIN_NO_VERSIONS@
    } else {
        LIST_OPEN@ + join_lines(
            vs.map_values(|v: VersionSummary| admin_version_item(v, date, token)),
        ) + LIST_CLOSE@
    }
}

pub open spec fn admin_current(current: Option<Seq<char>>) -> Seq<char> {
    match current {
        Some(c) => ADMIN_CURRENT_OPEN@ + escape_html_text(c) + ADMIN_CURRENT_CLOSE@,
        None => ADMIN_NO_ENTRY@,
    }
}

/// The administration page of one day: its current text and its versions.
pub open spec fn admin_list_page(
    date: Seq<char>,
    current: Option<Seq<char>>,
    vs: Seq<VersionSummary>,
    token: Seq<char>,
) -> Seq<char> {
    head_text(date + ADMIN_LIST_TITLE_SUFFIX@) + BREAK@ + admin_nav_text(token) + HEADING_OPEN@
        + escape_html_text(date) + ADMIN_LIST_HEADING@ + admin_current(current) + ADMIN_LIST_PAST@
        + admin_versions_body(vs, date, token) + ADMIN_LIST_OTHER@ + escape_html_text(token)
        + ADMIN_LIST_END@ + FOOTER@
}

fn push_admin_item(out: &mut String, v: &VersionSummary, date: &str, token: &str)
    ensures
        final(out)@ == old(out)@ + admin_version_item(*v, date@, token@),
{
    out.append(ADMIN_ITEM_LINK);
    push_html(out, date);
    out.append(ADMIN_ITEM_VERSION);
    push_int(out, v.version_number);
    out.append(ADMIN_ITEM_TOKEN);
    push_html(out, token);
    out.append(ADMIN_ITEM_LABEL);
    push_int(out, v.version_number);
    out.append(ADMIN_ITEM_OPEN_PAREN);
    push_html(out, v.created_at.as_str());
    out.append(ADMIN_ITEM_PREVIEW);
    push_html(out, v.preview.as_str());
    out.append(ADMIN_ITEM_END);
    assert(final(out)@ =~= old(out)@ + admin_version_item(*v, date@, token@));
}

fn push_admin_versions(out: &mut String, versions: &[VersionSummary], date: &str, token: &str)
    ensures
        final(out)@ == old(out)@ + admin_versions_body(versions@, date@, token@),
{
    if versions.len() == 0 {
        out.append(ADMIN_NO_VERSIONS);
    } else {
        out.append(LIST_OPEN);
        let ghost start = out@;
        let mut i: usize = 0;
        while i < versions.len()
            invariant
                i <= versions@.len(),
                out@ == start + join_lines(
                    versions@.take(i as int).map_values(
                        |v: VersionSummary| admin_version_item(v, date@, token@),
                    ),
                ),
            decreases versions.len() - i,
        {
            if i > 0 {
                out.append(NEWLINE);
            }
            push_admin_item(out, &versions[i], date, token);
            proof {
                let items = versions@.take(i + 1).map_values(
                    |v: VersionSummary| admin_version_item(v, date@, token@),
                );
                assert(items.drop_last() =~= versions@.take(i as int).map_values(
                    |v: VersionSummary| admin_version_item(v, date@, token@),
                ));
                if i == 0 {
                    assert(items.len() == 1);
                }
                assert(out@ =~= start + join_lines(items));
            }
            i = i + 1;
        }
        assert(versions@.take(versions@.len() as int) =~= versions@);
        out.append(LIST_CLOSE);
    }
    assert(final(out)@ =~= old(out)@ + admin_versions_body(versions@, date@, token@));
}

pub fn render_admin_versions_list(
    date: &str,
    current_content: Option<&str>,
    versions: &[VersionSummary],
    token: &str,
) -> (r: String)
    ensures
        r@ == admin_list_page(
            date@,
            match current_content {
                Some(c) => Some(c@),
                None => None,
            },
            versions@,
            token@,
        ),
{
    let mut title = String::from_str(date);
    title.append(ADMIN_LIST_TITLE_SUFFIX);
    let mut r = String::new();
    push_head(&mut r, title.as_str());
    r.append(BREAK);
    let nav = admin_nav(token);
    r.append(nav.as_str());
    r.append(HEADING_OPEN);
    push_html(&mut r, date);
    r.append(ADMIN_LIST_HEADING);
    match current_content {
        Some(c) => {
            r.append(ADMIN_CURRENT_OPEN);
            push_html(&mut r, c);
            r.append(ADMIN_CURRENT_CLOSE);
        },
        None => r.append(ADMIN_NO_ENTRY),
    }
    r.append(ADMIN_LIST_PAST);
    push_admin_versions(&mut r, versions, date, token);
    r.append(ADMIN_LIST_OTHER);
    push_html(&mut r, token);
    r.append(ADMIN_LIST_END);
    r.append(FOOTER);
    assert(r@ =~= admin_list_page(
        date@,
        match current_content {
            Some(c) => Some(c@),
            None => None,
        },
        versions@,
        token@,
    ));
    r
}

/// The administration page of one archived version.
pub open spec fn admin_detail_page(v: crate::models::VersionView, token: Seq<char>) -> Seq<char> {
    head_text(v.entry_date + ADMIN_DETAIL_TITLE_MID@ + int_text(v.version_number)) + BREAK@
        + admin_nav_text(token) + HEADING_OPEN@ + escape_html_text(v.entry_date)
        + ADMIN_DETAIL_VERSION@ + int_text(v.version_number) + ADMIN_DETAIL_SAVED@ + escape_html_text(
        v.created_at,
    ) + ADMIN_DETAIL_CONTENT@ + escape_html_text(v.content) + ADMIN_DETAIL_BACK@ + escape_html_text(
        v.entry_date,
    ) + ADMIN_DETAIL_TOKEN@ + escape_html_text(token) + ADMIN_DETAIL_END@ + FOOTER@
}

pub fn render_admin_version_detail(version: &DiaryVersion, token: &str) -> (r: String)
    ensures
        r@ == admin_detail_page(version@, token@),
{
    let mut title = version.entry_date.clone();
    title.append(ADMIN_DETAIL_TITLE_MID);
    push_int(&mut title, version.version_number);
    let mut r = String::new();
    push_head(&mut r, title.as_str());
    r.append(BREAK);
    let nav = admin_nav(token);
    r.append(nav.as_str());
    r.append(HEADING_OPEN);
    push_html(&mut r, version.entry_date.as_str());
    r.append(ADMIN_DETAIL_VERSION);
    push_int(&mut r, version.version_number);
    r.append(ADMIN_DETAIL_SAVED);
    push_html(&mut r, version.created_at.as_str());
    r.append(ADMIN_DETAIL_CONTENT);
    push_html(&mut r, version.content.as_str());
    r.append(ADMIN_DETAIL_BACK);
    push_html(&mut r, version.entry_date.as_str());
    r.append(ADMIN_DETAIL_TOKEN);
    push_html(&mut r, token);
    r.append(ADMIN_DETAIL_END);
    r.append(FOOTER);
    assert(r@ =~= admin_detail_page(version@, token@));
    r
}

} // verus!
