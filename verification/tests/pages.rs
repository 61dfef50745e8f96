use paymonero_ui::pages::{
    dashboard_query, default_page, error_page, invoice_balance, monero_uri, overpayment_atomic,
    payment_request, shortfall_atomic, total_pages, PAGE_SIZE,
};

#[test]
fn default_page_is_first() {
    assert_eq!(default_page(), 1);
}

#[test]
fn dashboard_query_clamps_and_offsets() {
    let q = dashboard_query(0, None);
    assert_eq!((q.page, q.offset, q.filter.as_str()), (1, 0, ""));
    let q = dashboard_query(-7, Some("paid".to_string()));
    assert_eq!((q.page, q.offset, q.filter.as_str()), (1, 0, "paid"));
    let q = dashboard_query(3, Some(String::new()));
    assert_eq!((q.page, q.offset, q.filter.as_str()), (3, 50, ""));
}

#[test]
fn page_counts() {
    assert_eq!(PAGE_SIZE, 25);
    assert_eq!(total_pages(0), 0);
    assert_eq!(total_pages(1), 1);
    assert_eq!(total_pages(25), 1);
    assert_eq!(total_pages(26), 2);
    assert_eq!(total_pages(250), 10);
    assert_eq!(total_pages(-24), 0);
    assert_eq!(total_pages(-50), -1);
    assert_eq!(total_pages(i64::MIN), (i64::MIN + 24) / 25);
}

#[test]
fn every_listed_page_has_rows() {
    for total in [1i64, 24, 25, 26, 49, 50, 51, 1000] {
        let pages = total_pages(total);
        assert!(pages * 25 >= total && (pages - 1) * 25 < total);
        for page in 1..=pages {
            let q = dashboard_query(page, None);
            assert!(q.offset < total);
        }
    }
}

#[test]
fn balances() {
    assert_eq!(shortfall_atomic(100, 40), 60);
    assert_eq!(shortfall_atomic(40, 100), 0);
    assert_eq!(overpayment_atomic(40, 100), 60);
    assert_eq!(overpayment_atomic(100, 40), 0);
    let b = invoice_balance(2_000_000_000_000, 500_000_000_000);
    assert_eq!(b.shortfall_xmr, "1.5");
    assert_eq!(b.overpayment_xmr, "0.0");
    let b = invoice_balance(1_000_000_000_000, 1_000_000_000_060);
    assert_eq!(b.shortfall_xmr, "0.0");
    assert_eq!(b.overpayment_xmr, "0.00000000006");
}

#[test]
fn payment_requests() {
    let addr = "4AdUndXHHZ6cfufTMvppY6JwXNouMBzSkbLYfpAV5Usx";
    let r = payment_request(3_000_000_000_000, 1_250_000_000_000, addr, 600);
    assert_eq!(r.remaining_atomic, 1_750_000_000_000);
    assert_eq!(r.remaining_xmr, "1.75");
    assert_eq!(r.monero_uri, format!("monero:{}?tx_amount=1.75", addr));
    assert_eq!(r.time_left_secs, 600);
    assert!(r.qr_svg.starts_with("<?xml version=\"1.0\" standalone=\"yes\"?><svg"));
    assert!(r.qr_svg.ends_with("\"/></svg>"));
    let paid = payment_request(1_000, 5_000, addr, -30);
    assert_eq!(paid.remaining_atomic, 0);
    assert_eq!(paid.remaining_xmr, "0.0");
    assert_eq!(paid.monero_uri, format!("monero:{}?tx_amount=0.0", addr));
    assert_eq!(paid.time_left_secs, 0);
}

#[test]
fn uris() {
    assert_eq!(monero_uri("ADDR", 1), "monero:ADDR?tx_amount=0.000000000001");
}

#[test]
fn error_pages() {
    assert_eq!(
        error_page("Invoice not found"),
        "<h1>Error</h1><pre>Invoice not found</pre><p><a href=\"/admin\">Back to dashboard</a></p>"
    );
    assert_eq!(error_page(""), "<h1>Error</h1><pre></pre><p><a href=\"/admin\">Back to dashboard</a></p>");
}
