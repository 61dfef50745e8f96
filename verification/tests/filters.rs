use paymonero_ui::filters::{status_class, timeago_label, truncate_addr};

#[test]
fn status_classes() {
    assert_eq!(status_class("paid").unwrap(), "status-paid");
    assert_eq!(status_class("pending").unwrap(), "status-pending");
    assert_eq!(status_class("partial").unwrap(), "status-partial");
    assert_eq!(status_class("new").unwrap(), "status-new");
    assert_eq!(status_class("expired").unwrap(), "status-expired");
    assert_eq!(status_class("cancelled").unwrap(), "status-cancelled");
    assert_eq!(status_class("refunded").unwrap(), "status-unknown");
    assert_eq!(status_class("").unwrap(), "status-unknown");
    assert_eq!(status_class("Paid").unwrap(), "status-unknown");
    assert_eq!(status_class("unknown").unwrap(), "status-unknown");
}

#[test]
fn long_addresses_are_shortened() {
    let addr = "44AFFq5kSiGBoZ4NMDwYtN18obc8AemS33DBLWs3H7otXft3XjrpDtQGv7SqSsaBYBb98uNbr2VBBEt7f2wfn3RVGQBEP3A";
    assert_eq!(truncate_addr(addr).unwrap(), "44AFFq5k\u{2026}VGQBEP3A");
    assert_eq!(truncate_addr("abcdefghijklmnopqrstu").unwrap(), "abcdefgh\u{2026}nopqrstu");
}

#[test]
fn short_addresses_stay() {
    assert_eq!(truncate_addr("").unwrap(), "");
    assert_eq!(truncate_addr("short").unwrap(), "short");
    assert_eq!(truncate_addr("abcdefghijklmnopqrst").unwrap(), "abcdefghijklmnopqrst");
}

#[test]
fn address_lengths_count_bytes() {
    // 11 characters, 22 bytes: long by bytes, cut at character boundaries.
    let addr = "\u{e9}\u{e9}\u{e9}\u{e9}\u{e9}\u{e9}\u{e9}\u{e9}\u{e9}\u{e9}\u{e9}";
    assert_eq!(truncate_addr(addr).unwrap(), "\u{e9}\u{e9}\u{e9}\u{e9}\u{2026}\u{e9}\u{e9}\u{e9}\u{e9}");
}

#[test]
fn ages() {
    assert_eq!(timeago_label(-30), "just now");
    assert_eq!(timeago_label(0), "just now");
    assert_eq!(timeago_label(59), "just now");
    assert_eq!(timeago_label(60), "1m ago");
    assert_eq!(timeago_label(3599), "59m ago");
    assert_eq!(timeago_label(3600), "1h ago");
    assert_eq!(timeago_label(86_399), "23h ago");
    assert_eq!(timeago_label(86_400), "1d ago");
    assert_eq!(timeago_label(10 * 86_400 + 5), "10d ago");
}
