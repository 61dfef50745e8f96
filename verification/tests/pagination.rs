use paymonero_ui::pagination::{build_pagination, page_entries, PageEntry};

fn labels(entries: &[PageEntry]) -> Vec<String> {
    entries
        .iter()
        .map(|e| match e {
            PageEntry::Previous(p) => format!("<{}", p),
            PageEntry::Page(p) => format!("{}", p),
            PageEntry::Current(p) => format!("[{}]", p),
            PageEntry::Gap => "...".to_string(),
            PageEntry::Next(p) => format!("{}>", p),
        })
        .collect()
}

#[test]
fn no_links_for_a_single_page() {
    assert_eq!(build_pagination(1, 1, ""), "");
    assert_eq!(build_pagination(1, 0, "paid"), "");
    assert_eq!(build_pagination(7, -3, ""), "");
}

#[test]
fn two_pages() {
    assert_eq!(
        build_pagination(1, 2, ""),
        "<div class=\"pagination\"><span class=\"current\">1</span><a href=\"/admin?page=2\">2</a><a href=\"/admin?page=2\">\u{2192}</a></div>"
    );
    assert_eq!(
        build_pagination(2, 2, "paid"),
        "<div class=\"pagination\"><a href=\"/admin?page=1&status=paid\">\u{2190}</a><a href=\"/admin?page=1&status=paid\">1</a><span class=\"current\">2</span></div>"
    );
}

#[test]
fn middle_page_with_gaps() {
    let html = build_pagination(10, 20, "");
    assert_eq!(
        html,
        "<div class=\"pagination\"><a href=\"/admin?page=9\">\u{2190}</a><a href=\"/admin?page=1\">1</a><span>\u{2026}</span><a href=\"/admin?page=8\">8</a><a href=\"/admin?page=9\">9</a><span class=\"current\">10</span><a href=\"/admin?page=11\">11</a><a href=\"/admin?page=12\">12</a><span>\u{2026}</span><a href=\"/admin?page=20\">20</a><a href=\"/admin?page=11\">\u{2192}</a></div>"
    );
}

#[test]
fn entries_around_the_edges() {
    assert_eq!(labels(&page_entries(4, 7)), ["<3", "1", "2", "3", "[4]", "5", "6", "7", "5>"]);
    assert_eq!(labels(&page_entries(5, 9)), ["<4", "1", "...", "3", "4", "[5]", "6", "7", "...", "9", "6>"]);
    assert_eq!(labels(&page_entries(1, 3)), ["[1]", "2", "3", "2>"]);
    assert_eq!(labels(&page_entries(3, 3)), ["<2", "1", "2", "[3]"]);
}

#[test]
fn pages_out_of_range_have_no_current_entry() {
    assert_eq!(labels(&page_entries(10, 3)), ["<9", "1", "..."]);
    assert_eq!(labels(&page_entries(-5, 3)), ["...", "3", "-4>"]);
    assert!(build_pagination(-5, 3, "").contains("page=-4"));
}

#[test]
fn numbered_entries_increase_and_gaps_skip() {
    for total in 2i64..=12 {
        for page in 1..=total {
            let entries = page_entries(page, total);
            let mut last: Option<i64> = None;
            let mut gap_before = false;
            let mut currents = 0;
            for (i, e) in entries.iter().enumerate() {
                match e {
                    PageEntry::Page(p) | PageEntry::Current(p) => {
                        assert!(1 <= *p && *p <= total);
                        if let Some(q) = last {
                            if gap_before {
                                assert!(*p > q + 1);
                            } else {
                                assert_eq!(*p, q + 1);
                            }
                        }
                        if let PageEntry::Current(c) = e {
                            assert_eq!(*c, page);
                            currents += 1;
                        }
                        last = Some(*p);
                        gap_before = false;
                    }
                    PageEntry::Gap => {
                        assert!(last.is_some());
                        gap_before = true;
                    }
                    PageEntry::Previous(p) => {
                        assert_eq!(i, 0);
                        assert_eq!(*p, page - 1);
                    }
                    PageEntry::Next(p) => {
                        assert_eq!(i, entries.len() - 1);
                        assert_eq!(*p, page + 1);
                    }
                }
            }
            assert_eq!(currents, 1);
            assert!(!gap_before);
            assert_eq!(matches!(entries[0], PageEntry::Previous(_)), page > 1);
            assert_eq!(matches!(entries[entries.len() - 1], PageEntry::Next(_)), page < total);
        }
    }
}

fn extend_addresses(html: &str, suffix: &str) -> String {
    let mut out = String::new();
    let mut rest = html;
    while let Some(pos) = rest.find("href=\"") {
        let start = pos + 6;
        out.push_str(&rest[..start]);
        let end = start + rest[start..].find('"').unwrap();
        out.push_str(&rest[start..end]);
        out.push_str(suffix);
        rest = &rest[end..];
    }
    out.push_str(rest);
    out
}

#[test]
fn filter_only_extends_addresses() {
    for (page, total) in [(1i64, 2i64), (2, 2), (5, 9), (10, 20), (10, 3), (-5, 3)] {
        for filter in ["paid", "a\"b", "href=\"x"] {
            let plain = build_pagination(page, total, "");
            let filtered = build_pagination(page, total, filter);
            assert_eq!(filtered, extend_addresses(&plain, &format!("&status={}", filter)));
        }
    }
}
