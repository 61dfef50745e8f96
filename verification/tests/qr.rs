use paymonero_ui::qr::generate_svg;

const QR_ERROR: &str = "<svg xmlns='http://www.w3.org/2000/svg' width='200' height='200'><text x='50%' y='50%' text-anchor='middle' fill='#666'>QR Error</text></svg>";

#[test]
fn encodable_data_gives_a_drawing() {
    let svg = generate_svg("monero:44AFFq5kSiGBoZ4NMDwYtN18obc8AemS33DBLWs3H7otXft3XjrpDtQGv7SqSsaBYBb98uNbr2VBBEt7f2wfn3RVGQBEP3A?tx_amount=1.5");
    assert!(svg.starts_with("<?xml version=\"1.0\" standalone=\"yes\"?><svg xmlns=\"http://www.w3.org/2000/svg\" version=\"1.1\" width=\""));
    assert!(svg.ends_with("\"/></svg>"));
    assert!(svg.contains("<path"));
    assert_ne!(svg, QR_ERROR);
}

#[test]
fn drawing_size_is_between_limits() {
    let svg = generate_svg("hello");
    let start = svg.find("width=\"").unwrap() + 7;
    let end = start + svg[start..].find('"').unwrap();
    let width: u32 = svg[start..end].parse().unwrap();
    assert!((200..=300).contains(&width));
}

#[test]
fn oversized_data_gives_the_placeholder() {
    let data = "x".repeat(8000);
    assert_eq!(generate_svg(&data), QR_ERROR);
}

#[test]
fn every_outcome_ends_as_svg() {
    assert!(generate_svg("").ends_with("</svg>"));
    assert!(generate_svg(&"y".repeat(5000)).ends_with("</svg>"));
}

#[test]
fn drawing_depends_on_the_data_alone() {
    assert_eq!(generate_svg("monero:abc?tx_amount=1.5"), generate_svg("monero:abc?tx_amount=1.5"));
    assert_ne!(generate_svg("monero:abc?tx_amount=1.5"), generate_svg("monero:abc?tx_amount=2.5"));
}

#[test]
fn payment_page_draws_its_uri() {
    let r = paymonero_ui::pages::payment_request(5_000_000_000_000, 0, "4Addr", 10);
    assert_eq!(r.qr_svg, generate_svg(&r.monero_uri));
}
