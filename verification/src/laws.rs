//! Properties of the library as a whole, proved over the specifications that the
//! functions' contracts use.

use vstd::prelude::*;
use vstd::arithmetic::div_mod::lemma_fundamental_div_mod;
use crate::amount::{
    reads_as_amount,
    magnitude, wrapped_u64, xmr_fraction, xmr_full_text, xmr_text, PICONERO_PER_XMR, XMR_DECIMALS,
};
use crate::decimal::{
    all_digits, decimal, digits_value, fixed_digits, lemma_decimal_value, lemma_fixed_digits_len,
    lemma_fixed_digits_value, lemma_trim_fixed_digits, pow10, trim_trailing_zeros, zeros,
};
use crate::pagination::{
    back_entries, entries_html, entry_page, extend_hrefs, extend_hrefs_from, filter_param,
    lemma_extend_entries, lemma_extend_plain, pagination_html, first_entries, forward_entries, last_entries, page_label,
    pagination_entries, window_end, window_entries, window_start, PageEntry,
};
use crate::filters::{is_known_status, status_class_text, timeago_text};
use crate::qr::{is_qr_svg, qr_drawing, qr_error_svg};
use crate::outside::{qr_svg_drawing, qr_svg_end, qr_svg_start, qr_symbol};
use crate::pages::{clamp_page, monero_uri_text, overpayment, page_count, shortfall, PAGE_SIZE};

verus! {

proof fn lemma_pow10_twelve()
    ensures
        pow10(XMR_DECIMALS as nat) == PICONERO_PER_XMR,
{
    reveal_with_fuel(pow10, 13);
}

/// The short form of an amount reads back as the amount. It is the numeral of the
/// whole XMR (digits only, no leading zero), a point, and one to twelve fraction digits
/// that do not end in `0` unless they are the single `"0"`; the whole part times 10^12
/// plus the fraction digits taken as twelve decimal places gives the amount.
pub proof fn law_short_form_reads_back(a: nat)
    ensures
        xmr_text(a) == decimal(a / (PICONERO_PER_XMR as nat)) + seq!['.'] + xmr_fraction(a),
        all_digits(decimal(a / (PICONERO_PER_XMR as nat))),
        decimal(a / (PICONERO_PER_XMR as nat)).len() > 1 ==> decimal(
            a / (PICONERO_PER_XMR as nat),
        )[0] != '0',
        all_digits(xmr_fraction(a)),
        1 <= xmr_fraction(a).len() <= XMR_DECIMALS,
        xmr_fraction(a).len() == 1 || xmr_fraction(a).last() != '0',
        digits_value(decimal(a / (PICONERO_PER_XMR as nat))) * PICONERO_PER_XMR + digits_value(
            xmr_fraction(a),
        ) * pow10((XMR_DECIMALS - xmr_fraction(a).len()) as nat) == a,
{
    let u = PICONERO_PER_XMR as nat;
    let w = XMR_DECIMALS as nat;
    let whole = a / u;
    let frac = a % u;
    lemma_pow10_twelve();
    lemma_decimal_value(whole);
    if whole < 10 {
        assert(decimal(whole).len() == 1);
    }
    lemma_trim_fixed_digits(frac, w);
    lemma_fixed_digits_value(frac, w);
    lemma_fixed_digits_len(frac, w);
    lemma_fundamental_div_mod(a as int, u as int);
    let t = trim_trailing_zeros(fixed_digits(frac, w));
    let fixed = fixed_digits(frac, w);
    assert(frac % u == frac);
    if t.len() == 0 {
        let z = seq!['0'];
        assert(z.drop_last() =~= Seq::<char>::empty());
        assert(digits_value(Seq::<char>::empty()) == 0);
        assert(digits_value(z) == 0);
        assert(all_digits(z));
    } else {
        assert forall|i: int| 0 <= i < t.len() implies '0' <= #[trigger] t[i] <= '9' by {
            assert(t[i] == fixed[i]);
        }
    }
}

/// The full form of an amount reads back as the amount: the whole XMR, a point, and
/// exactly twelve fraction digits whose value is the amount modulo 10^12.
pub proof fn law_full_form_reads_back(a: nat)
    ensures
        xmr_full_text(a) == decimal(a / (PICONERO_PER_XMR as nat)) + seq!['.'] + fixed_digits(
            a % (PICONERO_PER_XMR as nat),
            XMR_DECIMALS as nat,
        ),
        fixed_digits(a % (PICONERO_PER_XMR as nat), XMR_DECIMALS as nat).len() == XMR_DECIMALS,
        all_digits(fixed_digits(a % (PICONERO_PER_XMR as nat), XMR_DECIMALS as nat)),
        digits_value(decimal(a / (PICONERO_PER_XMR as nat))) * PICONERO_PER_XMR + digits_value(
            fixed_digits(a % (PICONERO_PER_XMR as nat), XMR_DECIMALS as nat),
        ) == a,
{
    let u = PICONERO_PER_XMR as nat;
    let w = XMR_DECIMALS as nat;
    lemma_pow10_twelve();
    lemma_decimal_value(a / u);
    lemma_fixed_digits_value(a % u, w);
    lemma_fixed_digits_len(a % u, w);
    lemma_fundamental_div_mod(a as int, u as int);
    assert((a % u) % u == a % u);
}

/// The short form is the full form without the trailing zeros of the fraction (one
/// zero stays when the fraction is zero): the full form is the short form followed by
/// zeros up to twelve fraction digits.
pub proof fn law_short_form_trims_full_form(a: nat)
    ensures
        xmr_full_text(a) == xmr_text(a) + zeros((XMR_DECIMALS - xmr_fraction(a).len()) as nat),
{
    let u = PICONERO_PER_XMR as nat;
    let w = XMR_DECIMALS as nat;
    let frac = a % u;
    lemma_trim_fixed_digits(frac, w);
    lemma_fixed_digits_len(frac, w);
    let t = trim_trailing_zeros(fixed_digits(frac, w));
    if t.len() == 0 {
        assert(fixed_digits(frac, w) =~= seq!['0'] + zeros((w - 1) as nat));
    }
    assert(xmr_full_text(a) =~= xmr_text(a) + zeros((XMR_DECIMALS - xmr_fraction(a).len()) as nat));
}

/// On amounts that are not negative, reading the amount as unsigned (the display form
/// of the pages) and taking its magnitude (`models::format_xmr`) give the same text.
pub proof fn law_display_form_matches_for_non_negative(a: i64)
    requires
        a >= 0,
    ensures
        xmr_text(wrapped_u64(a)) == xmr_text(magnitude(a)),
{
}

/// The short form of an amount does not depend on its sign (for every amount whose
/// negation is an `i64`).
pub proof fn law_format_ignores_sign(a: i64)
    requires
        a > i64::MIN,
    ensures
        xmr_text(magnitude(a)) == xmr_text(magnitude((-a) as i64)),
{
}

/// The page count is the least number of pages of 25 that holds all invoices.
pub proof fn law_page_count_is_least_cover(total: int)
    requires
        0 <= total,
    ensures
        page_count(total) * PAGE_SIZE >= total,
        (page_count(total) - 1) * PAGE_SIZE < total || total == 0,
        page_count(total) >= 0,
{
    lemma_fundamental_div_mod(total + PAGE_SIZE - 1, PAGE_SIZE as int);
}

/// Every page from 1 to the page count starts at an invoice that exists: its offset
/// is below the number of invoices.
pub proof fn law_listed_pages_are_not_empty(total: int, page: int)
    requires
        0 <= total,
        1 <= page <= page_count(total),
    ensures
        0 <= (page - 1) * PAGE_SIZE < total,
{
    law_page_count_is_least_cover(total);
    assert((page - 1) * PAGE_SIZE <= (page_count(total) - 1) * PAGE_SIZE) by (nonlinear_arith)
        requires
            page <= page_count(total),
    ;
    assert(0 <= (page - 1) * PAGE_SIZE) by (nonlinear_arith)
        requires
            1 <= page,
    ;
}

/// An invoice is never both short and overpaid, and the shortfall less the
/// overpayment is the amount less what was received.
pub proof fn law_balance_is_one_sided(required: int, received: int)
    ensures
        shortfall(required, received) >= 0,
        overpayment(required, received) >= 0,
        shortfall(required, received) == 0 || overpayment(required, received) == 0,
        shortfall(required, received) - overpayment(required, received) == required - received,
{
}

/// The age of a record is "just now" below a minute, whole minutes (1 to 59) below an
/// hour, whole hours (1 to 23) below a day, and whole days (at least 1) after that.
pub proof fn law_age_units(seconds: int)
    ensures
        seconds < 60 ==> timeago_text(seconds) == "just now"@,
        60 <= seconds < 3600 ==> timeago_text(seconds) == decimal((seconds / 60) as nat)
            + "m ago"@ && 1 <= seconds / 60 <= 59,
        3600 <= seconds < 86400 ==> timeago_text(seconds) == decimal((seconds / 3600) as nat)
            + "h ago"@ && 1 <= seconds / 3600 <= 23,
        86400 <= seconds ==> timeago_text(seconds) == decimal((seconds / 86400) as nat)
            + "d ago"@ && 1 <= seconds / 86400,
{
}


/// The page shown is marked as the current one exactly when it lies between 1 and the
/// page count, and no other page is marked current.
pub proof fn law_current_page_is_marked(page: i64, total_pages: i64)
    requires
        i64::MIN + 2 <= page <= i64::MAX - 2,
    ensures
        (exists|i: int|
            0 <= i < pagination_entries(page, total_pages).len() && #[trigger] pagination_entries(
                page,
                total_pages,
            )[i] == PageEntry::Current(page)) <==> 1 <= page <= total_pages,
        forall|i: int|
            0 <= i < pagination_entries(page, total_pages).len() && (#[trigger] pagination_entries(
                page,
                total_pages,
            )[i] is Current) ==> pagination_entries(page, total_pages)[i] == PageEntry::Current(
                page,
            ),
{
    let p = page as int;
    let t = total_pages as int;
    let es = pagination_entries(page, total_pages);
    let head = back_entries(p) + first_entries(p);
    let lo = window_start(p);
    let hi = window_end(p, t);
    let w = window_entries(lo, hi, p);
    let tail = last_entries(p, t) + forward_entries(p, t);
    assert(es =~= head + w + tail);
    assert forall|i: int| 0 <= i < head.len() implies !(#[trigger] head[i] is Current) by {
        if i < back_entries(p).len() {
            assert(head[i] == back_entries(p)[i]);
        } else {
            assert(head[i] == first_entries(p)[i - back_entries(p).len()]);
        }
    }
    assert forall|i: int| 0 <= i < tail.len() implies !(#[trigger] tail[i] is Current) by {
        if i < last_entries(p, t).len() {
            assert(tail[i] == last_entries(p, t)[i]);
        } else {
            assert(tail[i] == forward_entries(p, t)[i - last_entries(p, t).len()]);
        }
    }
    assert forall|i: int| 0 <= i < es.len() && (#[trigger] es[i] is Current) implies es[i]
        == PageEntry::Current(page) && lo <= page <= hi by {
        if i < head.len() {
            assert(es[i] == head[i]);
        } else if i < head.len() + w.len() {
            assert(es[i] == w[i - head.len()]);
        } else {
            assert(es[i] == tail[i - head.len() - w.len()]);
        }
    }
    if 1 <= p <= t {
        let i = head.len() + (p - lo);
        assert(es[i] == w[p - lo]);
        assert(es[i] == PageEntry::Current(page));
    }
}


/// Where each entry of the page links comes from: the arrow back and the first page
/// before the window, the last page and the arrow forward after it.
proof fn lemma_entry_origin(page: i64, total_pages: i64, i: int)
    requires
        1 <= page <= total_pages,
        0 <= i < pagination_entries(page, total_pages).len(),
    ensures
        ({
            let p = page as int;
            let t = total_pages as int;
            let a = back_entries(p).len();
            let b = first_entries(p).len();
            let lo = window_start(p);
            let hi = window_end(p, t);
            let n = hi - lo + 1;
            let c = last_entries(p, t).len();
            let e = pagination_entries(page, total_pages)[i];
            &&& 1 <= lo <= p <= hi <= t
            &&& pagination_entries(page, total_pages).len() == a + b + n + c + forward_entries(
                p,
                t,
            ).len()
            &&& a == (if p > 1 { 1int } else { 0 })
            &&& b == (if p > 4 { 2int } else if p > 3 { 1 } else { 0 })
            &&& c == (if p < t - 3 { 2int } else if p < t - 2 { 1 } else { 0 })
            &&& forward_entries(p, t).len() == (if p < t { 1int } else { 0 })
            &&& i < a ==> e == PageEntry::Previous((p - 1) as i64)
            &&& a <= i < a + b ==> (if i == a { e == PageEntry::Page(1) } else { e
                == PageEntry::Gap })
            &&& a + b <= i < a + b + n ==> (if lo + (i - a - b) == p {
                e == PageEntry::Current(p as i64)
            } else {
                e == PageEntry::Page((lo + (i - a - b)) as i64)
            })
            &&& a + b + n <= i < a + b + n + c ==> (if i == a + b + n + c - 1 {
                e == PageEntry::Page(total_pages)
            } else {
                e == PageEntry::Gap
            })
            &&& a + b + n + c <= i ==> e == PageEntry::Next((p + 1) as i64)
        }),
{
    let p = page as int;
    let t = total_pages as int;
    let es = pagination_entries(page, total_pages);
    let a = back_entries(p);
    let b = first_entries(p);
    let w = window_entries(window_start(p), window_end(p, t), p);
    let c = last_entries(p, t);
    let d = forward_entries(p, t);
    assert(es =~= a + b + w + c + d);
    if i < a.len() {
        assert(es[i] == a[i]);
    } else if i < a.len() + b.len() {
        assert(es[i] == b[i - a.len()]);
    } else if i < a.len() + b.len() + w.len() {
        assert(es[i] == w[i - a.len() - b.len()]);
    } else if i < a.len() + b.len() + w.len() + c.len() {
        assert(es[i] == c[i - a.len() - b.len() - w.len()]);
    } else {
        assert(es[i] == d[i - a.len() - b.len() - w.len() - c.len()]);
    }
}

/// When the page shown lies between 1 and the page count, every entry leads to or
/// stands for a page between 1 and the page count.
pub proof fn law_links_stay_in_range(page: i64, total_pages: i64)
    requires
        1 <= page <= total_pages,
    ensures
        forall|i: int|
            0 <= i < pagination_entries(page, total_pages).len() && (#[trigger] entry_page(
                pagination_entries(page, total_pages)[i],
            )) is Some ==> 1 <= entry_page(pagination_entries(page, total_pages)[i])->0
                <= total_pages,
{
    assert forall|i: int|
        0 <= i < pagination_entries(page, total_pages).len() && (#[trigger] entry_page(
            pagination_entries(page, total_pages)[i],
        )) is Some implies 1 <= entry_page(pagination_entries(page, total_pages)[i])->0
        <= total_pages by {
        lemma_entry_origin(page, total_pages, i);
    }
}

/// The arrow back comes first and only when there is a page before; the arrow forward
/// comes last and only when there is a page after; neither appears anywhere else.
pub proof fn law_arrows_at_the_ends(page: i64, total_pages: i64)
    requires
        1 <= page <= total_pages,
    ensures
        pagination_entries(page, total_pages).len() > 0,
        (pagination_entries(page, total_pages)[0] is Previous) <==> page > 1,
        page > 1 ==> pagination_entries(page, total_pages)[0] == PageEntry::Previous(
            (page - 1) as i64,
        ),
        (pagination_entries(page, total_pages).last() is Next) <==> page < total_pages,
        page < total_pages ==> pagination_entries(page, total_pages).last() == PageEntry::Next(
            (page + 1) as i64,
        ),
        forall|i: int|
            0 < i < pagination_entries(page, total_pages).len() ==> !(
            #[trigger] pagination_entries(page, total_pages)[i] is Previous),
        forall|i: int|
            0 <= i < pagination_entries(page, total_pages).len() - 1 ==> !(
            #[trigger] pagination_entries(page, total_pages)[i] is Next),
{
    let es = pagination_entries(page, total_pages);
    lemma_entry_origin(page, total_pages, 0);
    lemma_entry_origin(page, total_pages, es.len() - 1);
    assert forall|i: int| 0 < i < es.len() implies !(#[trigger] es[i] is Previous) by {
        lemma_entry_origin(page, total_pages, i);
    }
    assert forall|i: int| 0 <= i < es.len() - 1 implies !(#[trigger] es[i] is Next) by {
        lemma_entry_origin(page, total_pages, i);
    }
}

/// When the page shown lies between 1 and the page count, the numbered entries go up
/// from left to right; two numbered entries side by side are consecutive pages; and a
/// gap stands only between two numbered entries, whose pages are not consecutive.
pub proof fn law_numbers_increase_and_gaps_skip(page: i64, total_pages: i64)
    requires
        1 <= page <= total_pages,
    ensures
        forall|i: int, j: int|
            0 <= i < j < pagination_entries(page, total_pages).len() && (#[trigger] page_label(
                pagination_entries(page, total_pages)[i],
            )) is Some && (#[trigger] page_label(pagination_entries(page, total_pages)[j])) is Some
                ==> page_label(pagination_entries(page, total_pages)[i])->0 < page_label(
                pagination_entries(page, total_pages)[j],
            )->0,
        forall|i: int|
            0 <= i && i + 1 < pagination_entries(page, total_pages).len() && (#[trigger] page_label(
                pagination_entries(page, total_pages)[i],
            )) is Some && page_label(pagination_entries(page, total_pages)[i + 1]) is Some
                ==> page_label(pagination_entries(page, total_pages)[i + 1])->0 == page_label(
                pagination_entries(page, total_pages)[i],
            )->0 + 1,
        forall|i: int|
            0 <= i < pagination_entries(page, total_pages).len() && (#[trigger] pagination_entries(
                page,
                total_pages,
            )[i] is Gap) ==> {
                &&& 0 < i < pagination_entries(page, total_pages).len() - 1
                &&& page_label(pagination_entries(page, total_pages)[i - 1]) is Some
                &&& page_label(pagination_entries(page, total_pages)[i + 1]) is Some
                &&& page_label(pagination_entries(page, total_pages)[i + 1])->0 > page_label(
                    pagination_entries(page, total_pages)[i - 1],
                )->0 + 1
            },
{
    let es = pagination_entries(page, total_pages);
    assert forall|i: int, j: int|
        0 <= i < j < es.len() && (#[trigger] page_label(es[i])) is Some && (#[trigger] page_label(
            es[j],
        )) is Some implies page_label(es[i])->0 < page_label(es[j])->0 by {
        lemma_entry_origin(page, total_pages, i);
        lemma_entry_origin(page, total_pages, j);
    }
    assert forall|i: int|
        0 <= i && i + 1 < es.len() && (#[trigger] page_label(es[i])) is Some && page_label(
            es[i + 1],
        ) is Some implies page_label(es[i + 1])->0 == page_label(es[i])->0 + 1 by {
        lemma_entry_origin(page, total_pages, i);
        lemma_entry_origin(page, total_pages, i + 1);
    }
    assert forall|i: int| 0 <= i < es.len() && (#[trigger] es[i] is Gap) implies {
        &&& 0 < i < es.len() - 1
        &&& page_label(es[i - 1]) is Some
        &&& page_label(es[i + 1]) is Some
        &&& page_label(es[i + 1])->0 > page_label(es[i - 1])->0 + 1
    } by {
        lemma_entry_origin(page, total_pages, i);
        lemma_entry_origin(page, total_pages, i - 1);
        lemma_entry_origin(page, total_pages, i + 1);
    }
}


/// Each known status has a class of its own: no other status, known or not, gets it.
pub proof fn law_status_classes_tell_statuses_apart(s1: Seq<char>, s2: Seq<char>)
    requires
        is_known_status(s1),
        s1 != s2,
    ensures
        status_class_text(s1) != status_class_text(s2),
{
    reveal_strlit("status-");
    reveal_strlit("status-unknown");
    reveal_strlit("unknown");
    reveal_strlit("paid");
    reveal_strlit("pending");
    reveal_strlit("partial");
    reveal_strlit("new");
    reveal_strlit("expired");
    reveal_strlit("cancelled");
    let prefix = "status-"@;
    let c1 = status_class_text(s1);
    let c2 = status_class_text(s2);
    assert(c1 == prefix + s1);
    assert(c1.subrange(7, c1.len() as int) =~= s1);
    if is_known_status(s2) {
        assert(c2.subrange(7, c2.len() as int) =~= s2);
    } else {
        if c1 == c2 {
            assert("status-unknown"@.subrange(7, 14) =~= "unknown"@);
            assert(s1 =~= "unknown"@);
            assert(s1[0] == 'u');
            assert("paid"@[0] == 'p' && "pending"@[0] == 'p' && "partial"@[0] == 'p');
            assert("new"@[0] == 'n' && "expired"@[0] == 'e' && "cancelled"@[0] == 'c');
            assert(false);
        }
    }
}

/// Whatever the data, the QR drawing is an SVG document: it ends with `</svg>`.
pub proof fn law_qr_drawing_is_svg(svg: Seq<char>)
    requires
        is_qr_svg(svg) || svg == qr_error_svg(),
    ensures
        svg.len() >= 6,
        svg.subrange(svg.len() - 6, svg.len() as int) == "</svg>"@,
{
    reveal_strlit("</svg>");
    reveal_strlit("\"/></svg>");
    reveal_strlit(
        "<svg xmlns='http://www.w3.org/2000/svg' width='200' height='200'><text x='50%' y='50%' text-anchor='middle' fill='#666'>QR Error</text></svg>",
    );
    reveal_strlit(
        "<?xml version=\"1.0\" standalone=\"yes\"?><svg xmlns=\"http://www.w3.org/2000/svg\" version=\"1.1\" width=\"",
    );
    if is_qr_svg(svg) {
        let end = qr_svg_end();
        let tail = svg.subrange(svg.len() - end.len(), svg.len() as int);
        assert(tail == end);
        assert(svg.subrange(svg.len() - 6, svg.len() as int) =~= end.subrange(3, 9));
        assert(end.subrange(3, 9) =~= "</svg>"@);
    } else {
        assert(svg.subrange(svg.len() - 6, svg.len() as int) =~= "</svg>"@);
    }
}


/// The status filter only extends the addresses of the page links: with a filter, the
/// links are those without one, with the filter's query part (`&status=` and the filter,
/// inserted as it is) added at the end of every address; nothing else changes.
pub proof fn law_filter_only_extends_addresses(page: i64, total_pages: i64, filter: Seq<char>)
    ensures
        pagination_html(page, total_pages, filter) == extend_hrefs(
            pagination_html(page, total_pages, seq![]),
            filter_param(filter),
        ),
        filter.len() > 0 ==> filter_param(filter) == "&status="@ + filter,
        filter.len() == 0 ==> filter_param(filter) == Seq::<char>::empty(),
{
    reveal_strlit("<div class=\"pagination\">");
    reveal_strlit("</div>");
    let x = filter_param(filter);
    let empty = Seq::<char>::empty();
    if total_pages <= 1 {
        assert(extend_hrefs(empty, x) == empty);
    } else {
        let open = "<div class=\"pagination\">"@;
        let close = "</div>"@;
        let es = pagination_entries(page, total_pages);
        lemma_extend_plain(close, empty, x);
        assert(close + empty =~= close);
        assert(extend_hrefs_from(empty, x, false) == empty);
        lemma_extend_entries(es, filter, close);
        lemma_extend_plain(open, entries_html(es, empty) + close, x);
        assert(pagination_html(page, total_pages, empty) =~= open + (entries_html(es, empty)
            + close));
        assert(pagination_html(page, total_pages, filter) =~= open + (entries_html(es, filter) + (
        close + empty)));
    }
}


/// The short form of `a` atomic units reads back as `a`.
proof fn lemma_short_form_reads_as(a: nat)
    ensures
        reads_as_amount(xmr_text(a), a as int),
{
    law_short_form_reads_back(a);
    let w = decimal(a / (PICONERO_PER_XMR as nat));
    let f = xmr_fraction(a);
    let t = xmr_text(a);
    let k = w.len() as int;
    assert(t[k] == '.');
    assert(t.take(k) =~= w);
    assert(t.skip(k + 1) =~= f);
}

/// The full form of `a` atomic units reads back as `a`, with exactly twelve places.
proof fn lemma_full_form_reads_as(a: nat)
    ensures
        reads_as_amount(xmr_full_text(a), a as int),
        xmr_full_text(a).len() > XMR_DECIMALS,
        xmr_full_text(a)[xmr_full_text(a).len() - (XMR_DECIMALS + 1)] == '.',
{
    law_full_form_reads_back(a);
    let w = decimal(a / (PICONERO_PER_XMR as nat));
    let f = fixed_digits(a % (PICONERO_PER_XMR as nat), XMR_DECIMALS as nat);
    let t = xmr_full_text(a);
    let k = w.len() as int;
    lemma_decimal_value(a / (PICONERO_PER_XMR as nat));
    assert(t[k] == '.');
    assert(t.take(k) =~= w);
    assert(t.skip(k + 1) =~= f);
    assert(t.len() - (k + 1) == XMR_DECIMALS);
    let e = (XMR_DECIMALS - (t.len() - (k + 1))) as nat;
    assert(e == 0);
    assert(pow10(e) == 1);
    assert(digits_value(t.skip(k + 1)) * pow10(e) == digits_value(f));
}

/// `models::format_xmr` writes the size of an amount: the text reads back as the
/// amount when it is not negative, and as its negation when it is.
pub proof fn law_format_xmr_writes_the_amount(a: i64)
    ensures
        a >= 0 ==> reads_as_amount(xmr_text(magnitude(a)), a as int),
        a < 0 ==> reads_as_amount(xmr_text(magnitude(a)), -(a as int)),
{
    lemma_short_form_reads_as(magnitude(a));
}

/// The display form and the twelve-place filter form read an amount as unsigned: the
/// text reads back as the amount when it is not negative, and as the amount plus 2^64
/// when it is. The filter form has exactly twelve places.
pub proof fn law_unsigned_forms_write_the_amount(a: i64)
    ensures
        a >= 0 ==> reads_as_amount(xmr_text(wrapped_u64(a)), a as int),
        a >= 0 ==> reads_as_amount(xmr_full_text(wrapped_u64(a)), a as int),
        a < 0 ==> reads_as_amount(xmr_text(wrapped_u64(a)), a + 0x1_0000_0000_0000_0000),
        a < 0 ==> reads_as_amount(xmr_full_text(wrapped_u64(a)), a + 0x1_0000_0000_0000_0000),
        xmr_full_text(wrapped_u64(a))[xmr_full_text(wrapped_u64(a)).len() - (XMR_DECIMALS + 1)]
            == '.',
{
    lemma_short_form_reads_as(wrapped_u64(a));
    lemma_full_form_reads_as(wrapped_u64(a));
}

/// The payment URI asks for the amount given: after `monero:`, the address and
/// `?tx_amount=` comes a text that reads back as that many atomic units.
pub proof fn law_payment_uri_asks_for_amount(address: Seq<char>, amount: nat)
    ensures
        ({
            let uri = monero_uri_text(address, amount);
            let head = "monero:"@ + address + "?tx_amount="@;
            &&& uri.len() >= head.len()
            &&& uri.take(head.len() as int) == head
            &&& reads_as_amount(uri.skip(head.len() as int), amount as int)
        }),
{
    let uri = monero_uri_text(address, amount);
    let head = "monero:"@ + address + "?tx_amount="@;
    assert(uri.take(head.len() as int) =~= head);
    assert(uri.skip(head.len() as int) =~= xmr_text(amount));
    lemma_short_form_reads_as(amount);
}

/// The QR drawing of data that fits in a QR code is the rendering of the symbol of
/// exactly those bytes, with a quiet zone of 4 at 200 to 300 pixels a side; data that
/// does not fit gets the placeholder.
pub proof fn law_qr_drawing_encodes_the_whole_data(data: Seq<u8>)
    ensures
        qr_symbol(data) matches Some(s) ==> qr_drawing(data) == qr_svg_drawing(
            s.0,
            s.1,
            4,
            200,
            200,
            300,
            300,
            true,
        ),
        qr_symbol(data) is None ==> qr_drawing(data) == qr_error_svg(),
{
}

/// A page asked for that is at least 1 is the page shown, and the rows skipped are
/// those of the pages before it; anything below 1 shows page 1 from the first row.
pub proof fn law_requested_page_is_kept(page: i64)
    ensures
        page >= 1 ==> clamp_page(page) == page,
        page >= 1 ==> (clamp_page(page) - 1) * PAGE_SIZE == (page - 1) * 25,
        page < 1 ==> clamp_page(page) == 1,
        page < 1 ==> (clamp_page(page) - 1) * PAGE_SIZE == 0,
{
}

/// Some entry of the page links is page `q`, as a link or as the current page.
pub open spec fn has_numbered_entry(entries: Seq<PageEntry>, q: int) -> bool {
    exists|i: int| 0 <= i < entries.len() && #[trigger] page_label(entries[i]) == Some(q)
}

/// When the page shown lies between 1 and the page count, every page within two of
/// it has a numbered entry, and so do page 1 and the last page; no other page has one.
pub proof fn law_window_around_current_page(page: i64, total_pages: i64)
    requires
        1 <= page <= total_pages,
    ensures
        forall|q: int|
            1 <= q <= total_pages && page - 2 <= q <= page + 2 ==> #[trigger] has_numbered_entry(
                pagination_entries(page, total_pages),
                q,
            ),
        has_numbered_entry(pagination_entries(page, total_pages), 1),
        has_numbered_entry(pagination_entries(page, total_pages), total_pages as int),
        forall|i: int|
            0 <= i < pagination_entries(page, total_pages).len() && (#[trigger] page_label(
                pagination_entries(page, total_pages)[i],
            )) is Some ==> {
                let q = page_label(pagination_entries(page, total_pages)[i])->0;
                q == 1 || q == total_pages || page - 2 <= q <= page + 2
            },
{
    let es = pagination_entries(page, total_pages);
    let p = page as int;
    let t = total_pages as int;
    let a = back_entries(p).len() as int;
    let b = first_entries(p).len() as int;
    let lo = window_start(p);
    let hi = window_end(p, t);
    let n = hi - lo + 1;
    let c = last_entries(p, t).len() as int;
    lemma_entry_origin(page, total_pages, 0);
    assert forall|q: int| 1 <= q <= total_pages && page - 2 <= q <= page + 2 implies #[trigger]
        has_numbered_entry(es, q) by {
        let i = a + b + (q - lo);
        lemma_entry_origin(page, total_pages, i);
        assert(page_label(es[i]) == Some(q));
    }
    if p > 3 {
        lemma_entry_origin(page, total_pages, a);
        assert(page_label(es[a]) == Some(1int));
    } else {
        lemma_entry_origin(page, total_pages, a + b);
        assert(page_label(es[a + b]) == Some(1int));
    }
    if p < t - 2 {
        lemma_entry_origin(page, total_pages, a + b + n + c - 1);
        assert(page_label(es[a + b + n + c - 1]) == Some(t));
    } else {
        lemma_entry_origin(page, total_pages, a + b + (t - lo));
        assert(page_label(es[a + b + (t - lo)]) == Some(t));
    }
    assert forall|i: int| 0 <= i < es.len() && (#[trigger] page_label(es[i])) is Some implies {
        let q = page_label(es[i])->0;
        q == 1 || q == total_pages || page - 2 <= q <= page + 2
    } by {
        lemma_entry_origin(page, total_pages, i);
    }
}

} // verus!
