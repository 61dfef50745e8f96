//! The page links under the invoice list of the dashboard.

use vstd::prelude::*;
use vstd::string::*;
use crate::decimal::{decimal, lemma_decimal_value, push_signed_decimal, signed_decimal};
use crate::text::owned;

verus! {

/// One entry of the page links.
pub enum PageEntry {
    /// Arrow to the page before.
    Previous(i64),
    /// Link to a page, labelled with its number.
    Page(i64),
    /// The page on display, labelled with its number and not linked.
    Current(i64),
    /// Ellipsis for pages left out.
    Gap,
    /// Arrow to the page after.
    Next(i64),
}

/// First page of the window around the current page: two before it, but not below page 1.
pub open spec fn window_start(page: int) -> int {
    if page - 2 > 1 {
        page - 2
    } else {
        1
    }
}

/// Last page of the window around the current page: two after it, but not beyond the last page.
pub open spec fn window_end(page: int, total_pages: int) -> int {
    if page + 2 < total_pages {
        page + 2
    } else {
        total_pages
    }
}

/// The pages from `lo` to `hi`, the current one marked.
pub open spec fn window_entries(lo: int, hi: int, page: int) -> Seq<PageEntry> {
    Seq::new(
        if hi >= lo {
            (hi - lo + 1) as nat
        } else {
            0
        },
        |i: int|
            if lo + i == page {
                PageEntry::Current((lo + i) as i64)
            } else {
                PageEntry::Page((lo + i) as i64)
            },
    )
}

/// An arrow back when there is a page before.
pub open spec fn back_entries(p: int) -> Seq<PageEntry> {
    if p > 1 {
        seq![PageEntry::Previous((p - 1) as i64)]
    } else {
        seq![]
    }
}

/// Page 1, and a gap after it, when the window does not reach it.
pub open spec fn first_entries(p: int) -> Seq<PageEntry> {
    if p > 3 {
        if p > 4 {
            seq![PageEntry::Page(1), PageEntry::Gap]
        } else {
            seq![PageEntry::Page(1)]
        }
    } else {
        seq![]
    }
}

/// The last page, and a gap before it, when the window does not reach it.
pub open spec fn last_entries(p: int, t: int) -> Seq<PageEntry> {
    if p < t - 2 {
        if p < t - 3 {
            seq![PageEntry::Gap, PageEntry::Page(t as i64)]
        } else {
            seq![PageEntry::Page(t as i64)]
        }
    } else {
        seq![]
    }
}

/// An arrow forward when there is a page after.
pub open spec fn forward_entries(p: int, t: int) -> Seq<PageEntry> {
    if p < t {
        seq![PageEntry::Next((p + 1) as i64)]
    } else {
        seq![]
    }
}

/// The entries of the page links: an arrow back when there is a page before; page 1
/// and a gap when the window does not reach it; the window of up to five pages around
/// the current one; a gap and the last page when the window does not reach it; an
/// arrow forward when there is a page after.
pub open spec fn pagination_entries(page: i64, total_pages: i64) -> Seq<PageEntry> {
    let p = page as int;
    let t = total_pages as int;
    back_entries(p) + first_entries(p) + window_entries(window_start(p), window_end(p, t), p)
        + last_entries(p, t) + forward_entries(p, t)
}

/// The page number an entry shows as its label: numbered links and the current page.
pub open spec fn page_label(entry: PageEntry) -> Option<int> {
    match entry {
        PageEntry::Page(p) => Some(p as int),
        PageEntry::Current(p) => Some(p as int),
        _ => None,
    }
}

/// The page an entry leads to or stands for: every entry but a gap.
pub open spec fn entry_page(entry: PageEntry) -> Option<int> {
    match entry {
        PageEntry::Previous(p) => Some(p as int),
        PageEntry::Page(p) => Some(p as int),
        PageEntry::Current(p) => Some(p as int),
        PageEntry::Next(p) => Some(p as int),
        PageEntry::Gap => None,
    }
}

/// The query part that keeps a status filter across pages.
pub open spec fn filter_param(filter: Seq<char>) -> Seq<char> {
    if filter.len() == 0 {
        seq![]
    } else {
        "&status="@ + filter
    }
}

/// The opening of a link's address attribute.
pub open spec fn href_open() -> Seq<char> {
    "href=\""@
}

/// `html` with `suffix` added at the end of the value of every `href="..."`
/// attribute; `in_href` tells whether the text starts inside such a value.
pub open spec fn extend_hrefs_from(html: Seq<char>, suffix: Seq<char>, in_href: bool) -> Seq<
    char,
>
    decreases html.len(),
{
    if html.len() == 0 {
        seq![]
    } else if in_href {
        if html[0] == '"' {
            suffix + seq!['"'] + extend_hrefs_from(html.skip(1), suffix, false)
        } else {
            seq![html[0]] + extend_hrefs_from(html.skip(1), suffix, true)
        }
    } else if html.len() >= 6 && html.take(6) == href_open() {
        href_open() + extend_hrefs_from(html.skip(6), suffix, true)
    } else {
        seq![html[0]] + extend_hrefs_from(html.skip(1), suffix, false)
    }
}

/// `html` with `suffix` added at the end of every link address (`href="..."` value).
pub open spec fn extend_hrefs(html: Seq<char>, suffix: Seq<char>) -> Seq<char> {
    extend_hrefs_from(html, suffix, false)
}

/// No character of `s` is `c`.
pub open spec fn free_of(s: Seq<char>, c: char) -> bool {
    forall|i: int| 0 <= i < s.len() ==> s[i] != c
}

/// The address of page `p` of the dashboard.
pub open spec fn page_url(p: int, filter: Seq<char>) -> Seq<char> {
    "/admin?page="@ + signed_decimal(p) + filter_param(filter)
}

/// The HTML of one entry.
pub open spec fn entry_html(entry: PageEntry, filter: Seq<char>) -> Seq<char> {
    match entry {
        PageEntry::Previous(p) => "<a href=\""@ + page_url(p as int, filter) + "\">\u{2190}</a>"@,
        PageEntry::Page(p) => "<a href=\""@ + page_url(p as int, filter) + "\">"@ + signed_decimal(
            p as int,
        ) + "</a>"@,
        PageEntry::Current(p) => "<span class=\"current\">"@ + signed_decimal(p as int)
            + "</span>"@,
        PageEntry::Gap => "<span>\u{2026}</span>"@,
        PageEntry::Next(p) => "<a href=\""@ + page_url(p as int, filter) + "\">\u{2192}</a>"@,
    }
}

/// The HTML of a run of entries, one after another.
pub open spec fn entries_html(entries: Seq<PageEntry>, filter: Seq<char>) -> Seq<char>
    decreases entries.len(),
{
    if entries.len() == 0 {
        seq![]
    } else {
        entries_html(entries.drop_last(), filter) + entry_html(entries.last(), filter)
    }
}

/// The page links: nothing when everything fits on one page, else the entries in a
/// `pagination` block.
pub open spec fn pagination_html(page: i64, total_pages: i64, filter: Seq<char>) -> Seq<char> {
    if total_pages <= 1 {
        seq![]
    } else {
        "<div class=\"pagination\">"@ + entries_html(pagination_entries(page, total_pages), filter)
            + "</div>"@
    }
}

/// Text without an `h` passes through unchanged outside an address.
pub proof fn lemma_extend_plain(a: Seq<char>, b: Seq<char>, suffix: Seq<char>)
    requires
        free_of(a, 'h'),
    ensures
        extend_hrefs_from(a + b, suffix, false) == a + extend_hrefs_from(b, suffix, false),
    decreases a.len(),
{
    reveal_strlit("href=\"");
    if a.len() > 0 {
        let s = a + b;
        assert(s[0] == a[0]);
        if s.len() >= 6 {
            assert(s.take(6)[0] != href_open()[0]);
        }
        assert(s.skip(1) =~= a.skip(1) + b);
        lemma_extend_plain(a.skip(1), b, suffix);
        assert(a =~= seq![a[0]] + a.skip(1));
    } else {
        assert(a + b =~= b);
    }
}

/// Text without a `"` passes through unchanged inside an address.
pub proof fn lemma_extend_in_address(a: Seq<char>, b: Seq<char>, suffix: Seq<char>)
    requires
        free_of(a, '"'),
    ensures
        extend_hrefs_from(a + b, suffix, true) == a + extend_hrefs_from(b, suffix, true),
    decreases a.len(),
{
    if a.len() > 0 {
        let s = a + b;
        assert(s[0] == a[0]);
        assert(s.skip(1) =~= a.skip(1) + b);
        lemma_extend_in_address(a.skip(1), b, suffix);
        assert(a =~= seq![a[0]] + a.skip(1));
    } else {
        assert(a + b =~= b);
    }
}

/// A link: text before it without `h`, the address, and text after its closing quote
/// without `h`. The suffix comes right after the address.
pub proof fn lemma_extend_link(
    pre: Seq<char>,
    address: Seq<char>,
    post: Seq<char>,
    rest: Seq<char>,
    suffix: Seq<char>,
)
    requires
        free_of(pre, 'h'),
        free_of(address, '"'),
        free_of(post, 'h'),
    ensures
        extend_hrefs_from(pre + href_open() + address + seq!['"'] + post + rest, suffix, false)
            == pre + href_open() + address + suffix + seq!['"'] + post + extend_hrefs_from(
            rest,
            suffix,
            false,
        ),
{
    reveal_strlit("href=\"");
    let tail = seq!['"'] + post + rest;
    lemma_extend_plain(pre, href_open() + address + tail, suffix);
    assert(pre + href_open() + address + seq!['"'] + post + rest =~= pre + (href_open() + address
        + tail));
    let s = href_open() + (address + tail);
    assert(s.take(6) =~= href_open());
    assert(s.skip(6) =~= address + tail);
    assert(href_open() + address + tail =~= s);
    lemma_extend_in_address(address, tail, suffix);
    let q = seq!['"'] + (post + rest);
    assert(tail =~= q);
    assert(q[0] == '"');
    assert(q.skip(1) =~= post + rest);
    lemma_extend_plain(post, rest, suffix);
    assert(extend_hrefs_from(q, suffix, true) == suffix + seq!['"'] + extend_hrefs_from(
        post + rest,
        suffix,
        false,
    ));
    assert(pre + (href_open() + (address + (suffix + seq!['"'] + (post + extend_hrefs_from(
        rest,
        suffix,
        false,
    ))))) =~= pre + href_open() + address + suffix + seq!['"'] + post + extend_hrefs_from(
        rest,
        suffix,
        false,
    ));
}

/// A signed numeral holds no `h` and no `"`.
pub proof fn lemma_numeral_chars(i: int)
    ensures
        free_of(signed_decimal(i), 'h'),
        free_of(signed_decimal(i), '"'),
{
    let n: nat = if i < 0 {
        (-i) as nat
    } else {
        i as nat
    };
    lemma_decimal_value(n);
    let d = decimal(n);
    assert forall|k: int| 0 <= k < signed_decimal(i).len() implies signed_decimal(i)[k] != 'h'
        && signed_decimal(i)[k] != '"' by {
        if i < 0 {
            if k > 0 {
                assert(signed_decimal(i)[k] == d[k - 1]);
            }
        } else {
            assert(signed_decimal(i)[k] == d[k]);
        }
    }
}

/// Each entry, rendered without a filter, becomes the entry rendered with the filter
/// once its address is extended by the filter's query part.
pub proof fn lemma_extend_entry(entry: PageEntry, filter: Seq<char>, rest: Seq<char>)
    ensures
        extend_hrefs_from(entry_html(entry, seq![]) + rest, filter_param(filter), false)
            == entry_html(entry, filter) + extend_hrefs_from(rest, filter_param(filter), false),
{
    reveal_strlit("<a href=\"");
    reveal_strlit("<a ");
    reveal_strlit("href=\"");
    reveal_strlit("/admin?page=");
    reveal_strlit("\">\u{2190}</a>");
    reveal_strlit("\">\u{2192}</a>");
    reveal_strlit(">\u{2190}</a>");
    reveal_strlit(">\u{2192}</a>");
    reveal_strlit("\">");
    reveal_strlit(">");
    reveal_strlit("</a>");
    reveal_strlit("<span class=\"current\">");
    reveal_strlit("</span>");
    reveal_strlit("<span>\u{2026}</span>");
    let x = filter_param(filter);
    let empty = Seq::<char>::empty();
    assert(filter_param(empty) =~= empty);
    assert("<a href=\""@ =~= "<a "@ + href_open());
    match entry {
        PageEntry::Previous(p) => {
            lemma_numeral_chars(p as int);
            let address = "/admin?page="@ + signed_decimal(p as int);
            assert(page_url(p as int, empty) =~= address);
            assert(free_of(address, '"')) by {
                assert forall|k: int| 0 <= k < address.len() implies address[k] != '"' by {
                    if k >= 12 {
                        assert(address[k] == signed_decimal(p as int)[k - 12]);
                    }
                }
            }
            assert("\">\u{2190}</a>"@ =~= seq!['"'] + ">\u{2190}</a>"@);
            lemma_extend_link("<a "@, address, ">\u{2190}</a>"@, rest, x);
            assert(entry_html(entry, empty) + rest =~= "<a "@ + href_open() + address + seq!['"']
                + ">\u{2190}</a>"@ + rest);
            assert(entry_html(entry, filter) =~= "<a "@ + href_open() + address + x + seq!['"']
                + ">\u{2190}</a>"@);
        },
        PageEntry::Next(p) => {
            lemma_numeral_chars(p as int);
            let address = "/admin?page="@ + signed_decimal(p as int);
            assert(page_url(p as int, empty) =~= address);
            assert(free_of(address, '"')) by {
                assert forall|k: int| 0 <= k < address.len() implies address[k] != '"' by {
                    if k >= 12 {
                        assert(address[k] == signed_decimal(p as int)[k - 12]);
                    }
                }
            }
            assert("\">\u{2192}</a>"@ =~= seq!['"'] + ">\u{2192}</a>"@);
            lemma_extend_link("<a "@, address, ">\u{2192}</a>"@, rest, x);
            assert(entry_html(entry, empty) + rest =~= "<a "@ + href_open() + address + seq!['"']
                + ">\u{2192}</a>"@ + rest);
            assert(entry_html(entry, filter) =~= "<a "@ + href_open() + address + x + seq!['"']
                + ">\u{2192}</a>"@);
        },
        PageEntry::Page(p) => {
            lemma_numeral_chars(p as int);
            let num = signed_decimal(p as int);
            let address = "/admin?page="@ + num;
            assert(page_url(p as int, empty) =~= address);
            assert(free_of(address, '"')) by {
                assert forall|k: int| 0 <= k < address.len() implies address[k] != '"' by {
                    if k >= 12 {
                        assert(address[k] == num[k - 12]);
                    }
                }
            }
            let post = ">"@ + num + "</a>"@;
            assert(free_of(post, 'h')) by {
                assert forall|k: int| 0 <= k < post.len() implies post[k] != 'h' by {
                    if 1 <= k < 1 + num.len() {
                        assert(post[k] == num[k - 1]);
                    } else if k >= 1 + num.len() {
                        assert(post[k] == "</a>"@[k - 1 - num.len()]);
                    }
                }
            }
            assert("\">"@ =~= seq!['"'] + ">"@);
            lemma_extend_link("<a "@, address, post, rest, x);
            assert(entry_html(entry, empty) + rest =~= "<a "@ + href_open() + address + seq!['"']
                + post + rest);
            assert(entry_html(entry, filter) =~= "<a "@ + href_open() + address + x + seq!['"']
                + post);
        },
        PageEntry::Current(p) => {
            lemma_numeral_chars(p as int);
            let num = signed_decimal(p as int);
            let text = "<span class=\"current\">"@ + num + "</span>"@;
            let open = "<span class=\"current\">"@;
            assert(free_of(text, 'h')) by {
                assert forall|k: int| 0 <= k < text.len() implies text[k] != 'h' by {
                    if k < open.len() {
                        assert(text[k] == open[k]);
                    } else if k < open.len() + num.len() {
                        assert(text[k] == num[k - open.len()]);
                    } else {
                        assert(text[k] == "</span>"@[k - open.len() - num.len()]);
                    }
                }
            }
            lemma_extend_plain(text, rest, x);
        },
        PageEntry::Gap => {
            lemma_extend_plain("<span>\u{2026}</span>"@, rest, x);
        },
    }
}

/// A run of entries, rendered without a filter, becomes the run rendered with the
/// filter once every address is extended by the filter's query part.
pub proof fn lemma_extend_entries(entries: Seq<PageEntry>, filter: Seq<char>, rest: Seq<char>)
    ensures
        extend_hrefs_from(entries_html(entries, seq![]) + rest, filter_param(filter), false)
            == entries_html(entries, filter) + extend_hrefs_from(
            rest,
            filter_param(filter),
            false,
        ),
    decreases entries.len(),
{
    if entries.len() == 0 {
        assert(entries_html(entries, seq![]) + rest =~= rest);
        assert(entries_html(entries, filter) + extend_hrefs_from(rest, filter_param(filter), false)
            =~= extend_hrefs_from(rest, filter_param(filter), false));
    } else {
        let init = entries.drop_last();
        let last = entries.last();
        let last_rest = entry_html(last, seq![]) + rest;
        lemma_extend_entries(init, filter, last_rest);
        lemma_extend_entry(last, filter, rest);
        assert(entries_html(entries, seq![]) + rest =~= entries_html(init, seq![]) + last_rest);
        assert(entries_html(entries, filter) + extend_hrefs_from(rest, filter_param(filter), false)
            =~= entries_html(init, filter) + (entry_html(last, filter) + extend_hrefs_from(
            rest,
            filter_param(filter),
            false,
        )));
    }
}

/// Appends the address of page `p`.
fn push_page_url(html: &mut String, p: i64, param: &str, Ghost(filter): Ghost<Seq<char>>)
    requires
        param@ == filter_param(filter),
    ensures
        final(html)@ == old(html)@ + page_url(p as int, filter),
{
    proof { reveal_strlit("/admin?page="); }
    html.append("/admin?page=");
    push_signed_decimal(html, p);
    html.append(param);
    assert(final(html)@ =~= old(html)@ + page_url(p as int, filter));
}

/// Appends the HTML of one entry.
fn push_entry(html: &mut String, entry: &PageEntry, param: &str, Ghost(filter): Ghost<Seq<char>>)
    requires
        param@ == filter_param(filter),
    ensures
        final(html)@ == old(html)@ + entry_html(*entry, filter),
{
    proof {
        reveal_strlit("<a href=\"");
        reveal_strlit("\">\u{2190}</a>");
        reveal_strlit("\">");
        reveal_strlit("</a>");
        reveal_strlit("<span class=\"current\">");
        reveal_strlit("</span>");
        reveal_strlit("<span>\u{2026}</span>");
        reveal_strlit("\">\u{2192}</a>");
    }
    match entry {
        PageEntry::Previous(p) => {
            html.append("<a href=\"");
            push_page_url(html, *p, param, Ghost(filter));
            html.append("\">\u{2190}</a>");
        },
        PageEntry::Page(p) => {
            html.append("<a href=\"");
            push_page_url(html, *p, param, Ghost(filter));
            html.append("\">");
            push_signed_decimal(html, *p);
            html.append("</a>");
        },
        PageEntry::Current(p) => {
            html.append("<span class=\"current\">");
            push_signed_decimal(html, *p);
            html.append("</span>");
        },
        PageEntry::Gap => {
            html.append("<span>\u{2026}</span>");
        },
        PageEntry::Next(p) => {
            html.append("<a href=\"");
            push_page_url(html, *p, param, Ghost(filter));
            html.append("\">\u{2192}</a>");
        },
    }
    assert(final(html)@ =~= old(html)@ + entry_html(*entry, filter));
}

/// The entries of the page links for page `page` of `total_pages`.
pub fn page_entries(page: i64, total_pages: i64) -> (entries: Vec<PageEntry>)
    requires
        total_pages > 1,
        i64::MIN + 2 <= page <= i64::MAX - 2,
    ensures
        entries@ == pagination_entries(page, total_pages),
{
    let ghost p: int = page as int;
    let ghost t: int = total_pages as int;
    let mut entries: Vec<PageEntry> = Vec::new();
    if page > 1 {
        entries.push(PageEntry::Previous(page - 1));
    }
    assert(entries@ =~= back_entries(p));
    if page > 3 {
        entries.push(PageEntry::Page(1));
        if page > 4 {
            entries.push(PageEntry::Gap);
        }
    }
    let ghost before_window: Seq<PageEntry> = back_entries(p) + first_entries(p);
    assert(entries@ =~= before_window);
    let lo: i64 = if page - 2 > 1 { page - 2 } else { 1 };
    let hi: i64 = if page + 2 < total_pages { page + 2 } else { total_pages };
    let ghost window: Seq<PageEntry> = window_entries(lo as int, hi as int, p);
    if lo <= hi {
        let span: i64 = hi - lo;
        let mut k: i64 = 0;
        while k <= span
            invariant
                lo <= hi,
                span == hi - lo,
                span <= 4,
                0 <= k <= span + 1,
                p == page,
                window == window_entries(lo as int, hi as int, p),
                entries@ == before_window + window.take(k as int),
            decreases span + 1 - k,
        {
            let q: i64 = lo + k;
            let entry: PageEntry = if q == page { PageEntry::Current(q) } else { PageEntry::Page(q) };
            entries.push(entry);
            assert(window.take(k + 1) =~= window.take(k as int).push(entry));
            k = k + 1;
        }
        assert(window.take(k as int) =~= window);
    } else {
        assert(window =~= seq![]);
    }
    let ghost upto_window: Seq<PageEntry> = before_window + window;
    assert(entries@ =~= upto_window);
    if page < total_pages - 2 {
        if page < total_pages - 3 {
            entries.push(PageEntry::Gap);
        }
        entries.push(PageEntry::Page(total_pages));
    }
    assert(entries@ =~= upto_window + last_entries(p, t));
    if page < total_pages {
        entries.push(PageEntry::Next(page + 1));
    }
    assert(entries@ =~= upto_window + last_entries(p, t) + forward_entries(p, t));
    entries
}

/// The page links under the invoice list, for page `page` of `total_pages`, keeping the
/// status filter in every address.
pub fn build_pagination(page: i64, total_pages: i64, filter: &str) -> (html: String)
    requires
        total_pages > 1 ==> i64::MIN + 2 <= page <= i64::MAX - 2,
    ensures
        html@ == pagination_html(page, total_pages, filter@),
{
    if total_pages <= 1 {
        return String::new();
    }
    proof { reveal_strlit("&status="); reveal_strlit("<div class=\"pagination\">"); reveal_strlit("</div>"); }
    let param: String = if filter.is_empty() {
        String::new()
    } else {
        let mut p: String = owned("&status=");
        p.append(filter);
        p
    };
    assert(param@ =~= filter_param(filter@));
    let entries: Vec<PageEntry> = page_entries(page, total_pages);
    let mut html: String = owned("<div class=\"pagination\">");
    let ghost head: Seq<char> = html@;
    let mut i: usize = 0;
    assert(entries@.take(0) =~= seq![]);
    while i < entries.len()
        invariant
            i <= entries@.len(),
            param@ == filter_param(filter@),
            html@ == head + entries_html(entries@.take(i as int), filter@),
        decreases entries@.len() - i,
    {
        push_entry(&mut html, &entries[i], param.as_str(), Ghost(filter@));
        proof {
            assert(entries@.take(i + 1).drop_last() =~= entries@.take(i as int));
        }
        i = i + 1;
    }
    assert(entries@.take(i as int) =~= entries@);
    html.append("</div>");
    assert(html@ =~= pagination_html(page, total_pages, filter@));
    html
}

} // verus!
