//! Filters that the page templates apply to values.

use vstd::prelude::*;
use vstd::string::*;
use vstd::utf8::*;
use crate::amount::{reads_as_amount, wrap_to_u64, wrapped_u64, xmr_full_string, xmr_full_text};
use crate::laws::law_unsigned_forms_write_the_amount;
use crate::decimal::{decimal, push_decimal};
use crate::text::{owned, str_equals};

verus! {

/// An amount of atomic units in XMR with all twelve decimal places. The amount is
/// read as unsigned, as `as u64` does. Never fails.
pub fn format_xmr(atomic: &i64) -> (r: Result<String, askama::Error>)
    ensures
        r matches Ok(s) && s@ == xmr_full_text(wrapped_u64(*atomic)),
        r matches Ok(s) && (*atomic >= 0 ==> reads_as_amount(s@, *atomic as int)),
        r matches Ok(s) && (*atomic < 0 ==> reads_as_amount(s@, *atomic + 0x1_0000_0000_0000_0000)),
        r matches Ok(s) && s@[s@.len() - 13] == '.',
{
    proof {
        law_unsigned_forms_write_the_amount(*atomic);
    }
    Ok(xmr_full_string(wrap_to_u64(*atomic)))
}


/// The invoice statuses that have a style of their own.
pub open spec fn is_known_status(status: Seq<char>) -> bool {
    ||| status == "paid"@
    ||| status == "pending"@
    ||| status == "partial"@
    ||| status == "new"@
    ||| status == "expired"@
    ||| status == "cancelled"@
}

/// The CSS class of a status: `status-` and the status for a known one, else `status-unknown`.
pub open spec fn status_class_text(status: Seq<char>) -> Seq<char> {
    if is_known_status(status) {
        "status-"@ + status
    } else {
        "status-unknown"@
    }
}

/// The CSS class that styles an invoice status. Never fails.
pub fn status_class(status: &str) -> (r: Result<String, askama::Error>)
    ensures
        r matches Ok(s) && s@ == status_class_text(status@),
{
    proof {
        reveal_strlit("status-");
        reveal_strlit("paid");
        reveal_strlit("pending");
        reveal_strlit("partial");
        reveal_strlit("new");
        reveal_strlit("expired");
        reveal_strlit("cancelled");
        reveal_strlit("status-paid");
        reveal_strlit("status-pending");
        reveal_strlit("status-partial");
        reveal_strlit("status-new");
        reveal_strlit("status-expired");
        reveal_strlit("status-cancelled");
        reveal_strlit("status-unknown");
    }
    let class: &str = if str_equals(status, "paid") {
        assert("status-paid"@ =~= "status-"@ + "paid"@);
        "status-paid"
    } else if str_equals(status, "pending") {
        assert("status-pending"@ =~= "status-"@ + "pending"@);
        "status-pending"
    } else if str_equals(status, "partial") {
        assert("status-partial"@ =~= "status-"@ + "partial"@);
        "status-partial"
    } else if str_equals(status, "new") {
        assert("status-new"@ =~= "status-"@ + "new"@);
        "status-new"
    } else if str_equals(status, "expired") {
        assert("status-expired"@ =~= "status-"@ + "expired"@);
        "status-expired"
    } else if str_equals(status, "cancelled") {
        assert("status-cancelled"@ =~= "status-"@ + "cancelled"@);
        "status-cancelled"
    } else {
        "status-unknown"
    };
    Ok(owned(class))
}

/// Byte length above which an address is shortened.
pub const ADDRESS_SHORT_LIMIT: usize = 20;

/// Bytes kept from each end of a shortened address.
pub const ADDRESS_KEPT_BYTES: usize = 8;

/// Whether an address is long enough to be shortened (counted in UTF-8 bytes).
pub open spec fn is_long_address(addr: &str) -> bool {
    addr.spec_bytes().len() > ADDRESS_SHORT_LIMIT
}

/// An address as shown: a long one becomes its first eight bytes, an ellipsis and its
/// last eight bytes; a short one stays as it is.
pub open spec fn truncated_address_text(addr: &str) -> Seq<char> {
    let bytes = addr.spec_bytes();
    if is_long_address(addr) {
        decode_utf8(bytes.subrange(0, ADDRESS_KEPT_BYTES as int)) + seq!['\u{2026}'] + decode_utf8(
            bytes.subrange(bytes.len() - ADDRESS_KEPT_BYTES, bytes.len() as int),
        )
    } else {
        addr@
    }
}

/// Shortens a long address for display. The cut points must fall between characters
/// (as slicing a `str` demands). Never fails.
pub fn truncate_addr(addr: &str) -> (r: Result<String, askama::Error>)
    requires
        is_long_address(addr) ==> is_char_boundary(addr.spec_bytes(), ADDRESS_KEPT_BYTES as int)
            && is_char_boundary(
            addr.spec_bytes(),
            addr.spec_bytes().len() - ADDRESS_KEPT_BYTES,
        ),
    ensures
        r matches Ok(s) && s@ == truncated_address_text(addr),
{
    broadcast use encode_utf8_decode_utf8;

    let len: usize = addr.as_bytes().len();
    if len > ADDRESS_SHORT_LIMIT {
        let (head, _rest) = addr.split_at(ADDRESS_KEPT_BYTES);
        let (_start, tail) = addr.split_at(len - ADDRESS_KEPT_BYTES);
        let mut shown: String = owned(head);
        proof { reveal_strlit("\u{2026}"); }
        shown.append("\u{2026}");
        shown.append(tail);
        assert(decode_utf8(head.spec_bytes()) == head@);
        assert(decode_utf8(tail.spec_bytes()) == tail@);
        Ok(shown)
    } else {
        Ok(owned(addr))
    }
}

/// How long ago something happened, from the whole seconds elapsed since: under a
/// minute is "just now", then whole minutes below an hour, whole hours below a day,
/// and whole days.
pub open spec fn timeago_text(seconds: int) -> Seq<char> {
    if seconds < 60 {
        "just now"@
    } else if seconds / 60 < 60 {
        decimal((seconds / 60) as nat) + "m ago"@
    } else if seconds / 3600 < 24 {
        decimal((seconds / 3600) as nat) + "h ago"@
    } else {
        decimal((seconds / 86400) as nat) + "d ago"@
    }
}

/// The age of a record, from the whole seconds elapsed since it (the count that
/// `chrono::TimeDelta::num_seconds` gives; its minutes, hours and days are that count
/// divided by 60, 3600 and 86400).
pub fn timeago_label(seconds: i64) -> (label: String)
    ensures
        label@ == timeago_text(seconds as int),
{
    proof {
        reveal_strlit("just now");
        reveal_strlit("m ago");
        reveal_strlit("h ago");
        reveal_strlit("d ago");
    }
    if seconds < 60 {
        return owned("just now");
    }
    let s: u64 = seconds as u64;
    let mut label: String = String::new();
    if s / 60 < 60 {
        push_decimal(&mut label, s / 60);
        label.append("m ago");
    } else if s / 3600 < 24 {
        push_decimal(&mut label, s / 3600);
        label.append("h ago");
    } else {
        push_decimal(&mut label, s / 86400);
        label.append("d ago");
    }
    assert(label@ =~= timeago_text(seconds as int));
    label
}

} // verus!
