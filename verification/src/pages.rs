//! What the pages compute from the rows they read: the list window of the dashboard,
//! the balance of an invoice, the payment request, the error page.

use vstd::prelude::*;
use vstd::string::*;
use vstd::utf8::*;
use crate::amount::{push_xmr, reads_as_amount, wrap_to_u64, wrapped_u64, xmr_string, xmr_text};
use crate::laws::{law_payment_uri_asks_for_amount, law_unsigned_forms_write_the_amount};
use crate::outside::{qr_svg_drawing, qr_symbol};
use crate::qr::{generate_svg, is_qr_svg, qr_drawing, qr_error_svg};
use crate::text::owned;

verus! {

/// Invoices listed on one dashboard page.
pub const PAGE_SIZE: i64 = 25;

/// The page shown when the request names none.
pub fn default_page() -> (page: i64)
    ensures
        page == 1,
{
    1
}

/// The page asked for, with anything below 1 taken as page 1.
pub open spec fn clamp_page(page: i64) -> i64 {
    if page < 1 {
        1
    } else {
        page
    }
}

/// The rows and filter of one dashboard page.
pub struct DashboardQuery {
    /// The page shown, counted from 1.
    pub page: i64,
    /// How many invoices, newest first, come before the page.
    pub offset: i64,
    /// The status the list is restricted to; empty for all invoices.
    pub filter: String,
}

/// The page, the row offset and the status filter of a dashboard request.
/// The offset must fit in an `i64`.
pub fn dashboard_query(page: i64, status: Option<String>) -> (q: DashboardQuery)
    requires
        (clamp_page(page) - 1) * PAGE_SIZE <= i64::MAX,
    ensures
        q.page == clamp_page(page),
        page >= 1 ==> q.page == page,
        page < 1 ==> q.page == 1,
        q.offset == (q.page - 1) * PAGE_SIZE,
        q.filter@ == (match status {
            Some(s) => s@,
            None => Seq::<char>::empty(),
        }),
{
    let page: i64 = if page < 1 { 1 } else { page };
    let offset: i64 = (page - 1) * PAGE_SIZE;
    let filter: String = match status {
        Some(s) => s,
        None => String::new(),
    };
    DashboardQuery { page, offset, filter }
}

/// `x / d` rounded toward zero, as integer division of `i64` does.
pub open spec fn div_toward_zero(x: int, d: int) -> int {
    if x >= 0 {
        x / d
    } else {
        -((-x) / d)
    }
}

/// The number of pages for `total` invoices: `(total + 24) / 25`.
pub open spec fn page_count(total: int) -> int {
    div_toward_zero(total + PAGE_SIZE - 1, PAGE_SIZE as int)
}

/// The number of dashboard pages that `total` invoices fill.
pub fn total_pages(total: i64) -> (pages: i64)
    requires
        total <= i64::MAX - (PAGE_SIZE - 1),
    ensures
        pages == page_count(total as int),
{
    let x: i64 = total + (PAGE_SIZE - 1);
    if x >= 0 {
        x / PAGE_SIZE
    } else {
        -((-x) / PAGE_SIZE)
    }
}

/// An amount of atomic units in XMR, short form. The amount is read as unsigned, as
/// `as u64` does.
pub fn format_xmr_display(atomic: i64) -> (r: String)
    ensures
        r@ == xmr_text(wrapped_u64(atomic)),
        atomic >= 0 ==> reads_as_amount(r@, atomic as int),
        atomic < 0 ==> reads_as_amount(r@, atomic + 0x1_0000_0000_0000_0000),
{
    proof {
        law_unsigned_forms_write_the_amount(atomic);
    }
    xmr_string(wrap_to_u64(atomic))
}

/// What an invoice still lacks: `required - received`, or 0 when that is negative.
pub open spec fn shortfall(required: int, received: int) -> int {
    if required - received > 0 {
        required - received
    } else {
        0
    }
}

/// What an invoice received beyond the amount: `received - required`, or 0 when that is negative.
pub open spec fn overpayment(required: int, received: int) -> int {
    if received - required > 0 {
        received - required
    } else {
        0
    }
}

/// The shortfall of an invoice, in atomic units.
pub fn shortfall_atomic(required: i64, received: i64) -> (r: i64)
    requires
        i64::MIN <= required - received <= i64::MAX,
    ensures
        r == shortfall(required as int, received as int),
{
    let d: i64 = required - received;
    if d > 0 { d } else { 0 }
}

/// The overpayment of an invoice, in atomic units.
pub fn overpayment_atomic(required: i64, received: i64) -> (r: i64)
    requires
        i64::MIN <= received - required <= i64::MAX,
    ensures
        r == overpayment(required as int, received as int),
{
    let d: i64 = received - required;
    if d > 0 { d } else { 0 }
}

/// The balance of an invoice as shown on its detail page.
pub struct InvoiceBalance {
    pub shortfall_xmr: String,
    pub overpayment_xmr: String,
}

/// Shortfall and overpayment of an invoice in XMR, short form. Both differences of the
/// amounts must fit in an `i64`.
pub fn invoice_balance(required: i64, received: i64) -> (b: InvoiceBalance)
    requires
        i64::MIN < required - received <= i64::MAX,
    ensures
        b.shortfall_xmr@ == xmr_text(shortfall(required as int, received as int) as nat),
        b.overpayment_xmr@ == xmr_text(overpayment(required as int, received as int) as nat),
{
    let short: i64 = shortfall_atomic(required, received);
    let over: i64 = overpayment_atomic(required, received);
    InvoiceBalance {
        shortfall_xmr: format_xmr_display(short),
        overpayment_xmr: format_xmr_display(over),
    }
}

/// The payment URI of the Monero wallet scheme for an amount of atomic units.
pub open spec fn monero_uri_text(address: Seq<char>, amount: nat) -> Seq<char> {
    "monero:"@ + address + "?tx_amount="@ + xmr_text(amount)
}

/// The payment URI asking for `amount` atomic units at `address`.
pub fn monero_uri(address: &str, amount: u64) -> (uri: String)
    ensures
        uri@ == monero_uri_text(address@, amount as nat),
        uri@.len() >= 18 + address@.len(),
        uri@.take(18 + address@.len() as int) == "monero:"@ + address@ + "?tx_amount="@,
        reads_as_amount(uri@.skip(18 + address@.len() as int), amount as int),
{
    proof {
        reveal_strlit("monero:");
        reveal_strlit("?tx_amount=");
    }
    let mut uri: String = owned("monero:");
    uri.append(address);
    uri.append("?tx_amount=");
    push_xmr(&mut uri, amount);
    assert(uri@ =~= monero_uri_text(address@, amount as nat));
    proof {
        law_payment_uri_asks_for_amount(address@, amount as nat);
    }
    uri
}

/// What the public payment page shows.
pub struct PaymentRequest {
    pub qr_svg: String,
    pub monero_uri: String,
    pub remaining_xmr: String,
    pub remaining_atomic: i64,
    pub time_left_secs: i64,
}

/// The payment page of an invoice: the amount still due, the wallet URI asking for it,
/// its QR code, and the seconds left before expiry (never below 0). The difference of
/// the amounts must fit in an `i64`.
pub fn payment_request(
    amount_atomic: i64,
    amount_received: i64,
    address: &str,
    seconds_to_expiry: i64,
) -> (r: PaymentRequest)
    requires
        i64::MIN <= amount_atomic - amount_received <= i64::MAX,
    ensures
        r.remaining_atomic == shortfall(amount_atomic as int, amount_received as int),
        r.remaining_xmr@ == xmr_text(r.remaining_atomic as nat),
        r.monero_uri@ == monero_uri_text(address@, r.remaining_atomic as nat),
        r.qr_svg@ == qr_drawing(encode_utf8(r.monero_uri@)),
        qr_symbol(encode_utf8(r.monero_uri@)) is Some ==> is_qr_svg(r.qr_svg@),
        r.remaining_atomic >= 0,
        reads_as_amount(r.remaining_xmr@, r.remaining_atomic as int),
        r.monero_uri@.len() >= 18 + address@.len(),
        r.monero_uri@.take(18 + address@.len() as int) == "monero:"@ + address@ + "?tx_amount="@,
        reads_as_amount(r.monero_uri@.skip(18 + address@.len() as int), r.remaining_atomic as int),
        qr_symbol(encode_utf8(r.monero_uri@)) matches Some(s) ==> r.qr_svg@ == qr_svg_drawing(
            s.0,
            s.1,
            4,
            200,
            200,
            300,
            300,
            true,
        ),
        qr_symbol(encode_utf8(r.monero_uri@)) is None ==> r.qr_svg@ == qr_error_svg(),
        r.time_left_secs == (if seconds_to_expiry > 0 {
            seconds_to_expiry
        } else {
            0
        }),
{
    let remaining: i64 = shortfall_atomic(amount_atomic, amount_received);
    let remaining_xmr: String = format_xmr_display(remaining);
    let uri: String = monero_uri(address, remaining as u64);
    let qr_svg: String = generate_svg(uri.as_str());
    let time_left_secs: i64 = if seconds_to_expiry > 0 { seconds_to_expiry } else { 0 };
    PaymentRequest {
        qr_svg,
        monero_uri: uri,
        remaining_xmr,
        remaining_atomic: remaining,
        time_left_secs,
    }
}

/// The body of the error page for a message.
pub open spec fn error_page_text(message: Seq<char>) -> Seq<char> {
    "<h1>Error</h1><pre>"@ + message + "</pre><p><a href=\"/admin\">Back to dashboard</a></p>"@
}

/// The error page shown when a request fails: the message, and a link back to the dashboard.
pub fn error_page(message: &str) -> (html: String)
    ensures
        html@ == error_page_text(message@),
{
    proof {
        reveal_strlit("<h1>Error</h1><pre>");
        reveal_strlit("</pre><p><a href=\"/admin\">Back to dashboard</a></p>");
    }
    let mut html: String = owned("<h1>Error</h1><pre>");
    html.append(message);
    html.append("</pre><p><a href=\"/admin\">Back to dashboard</a></p>");
    assert(html@ =~= error_page_text(message@));
    html
}

} // verus!
