use divan::text::{compare_bytes, compare_text, same_text, strip_raw_prefix, Order};

#[test]
fn texts_compare_byte_by_byte() {
    assert_eq!(compare_text("abc", "abd"), Order::Less);
    assert_eq!(compare_text("abd", "abc"), Order::Greater);
    assert_eq!(compare_text("abc", "abc"), Order::Equal);
    assert_eq!(compare_text("ab", "abc"), Order::Less);
    assert_eq!(compare_text("abc", "ab"), Order::Greater);
    assert_eq!(compare_text("", ""), Order::Equal);
    assert_eq!(compare_text("", "a"), Order::Less);
    assert_eq!(compare_text("Z", "a"), Order::Less);
    assert_eq!(compare_text("z", "\u{e9}"), Order::Less);
    assert_eq!(compare_bytes(&[1, 2, 3], &[1, 3]), Order::Less);
}

#[test]
fn text_order_agrees_with_that_of_str() {
    let words = ["", "a", "ab", "b", "B", "\u{e9}", "10", "9", "a\u{0}"];
    for a in words {
        for b in words {
            let expected = match a.cmp(b) {
                std::cmp::Ordering::Less => Order::Less,
                std::cmp::Ordering::Equal => Order::Equal,
                std::cmp::Ordering::Greater => Order::Greater,
            };
            assert_eq!(compare_text(a, b), expected);
            assert_eq!(same_text(a, b), a == b);
            assert_eq!(compare_text(b, a), expected.reverse());
        }
    }
}

#[test]
fn raw_prefix_is_stripped() {
    assert_eq!(strip_raw_prefix("r#fn"), "fn");
    assert_eq!(strip_raw_prefix("r#"), "");
    assert_eq!(strip_raw_prefix("fn"), "fn");
    assert_eq!(strip_raw_prefix("r"), "r");
    assert_eq!(strip_raw_prefix(""), "");
    assert_eq!(strip_raw_prefix("ar#b"), "ar#b");
    assert_eq!(strip_raw_prefix("r#\u{e9}t\u{e9}"), "\u{e9}t\u{e9}");
}

#[test]
fn order_reverses() {
    assert_eq!(Order::Less.reverse(), Order::Greater);
    assert_eq!(Order::Greater.reverse(), Order::Less);
    assert_eq!(Order::Equal.reverse(), Order::Equal);
}
