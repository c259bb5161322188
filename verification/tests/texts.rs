use aldar::text::{
    chars_of, join_all, digit, has_prefix, push_decimal, push_padded, push_spaces, string_from,
};

#[test]
fn digits_are_the_ascii_digits() {
    assert_eq!(digit(0), '0');
    assert_eq!(digit(7), '7');
    assert_eq!(digit(9), '9');
}

#[test]
fn decimal_is_appended_without_padding() {
    let mut s = String::from("n=");
    push_decimal(&mut s, 0);
    assert_eq!(s, "n=0");
    push_decimal(&mut s, 907);
    assert_eq!(s, "n=0907");
    let mut s = String::new();
    push_decimal(&mut s, u128::MAX);
    assert_eq!(s, "340282366920938463463374607431768211455");
}

#[test]
fn spaces_are_appended() {
    let mut s = String::from("a");
    push_spaces(&mut s, 0);
    assert_eq!(s, "a");
    push_spaces(&mut s, 3);
    assert_eq!(s, "a   ");
}

#[test]
fn padding_right_aligns() {
    let mut s = String::from("[");
    push_padded(&mut s, "ab", 5);
    assert_eq!(s, "[   ab");
    let mut s = String::new();
    push_padded(&mut s, "abcdef", 3);
    assert_eq!(s, "abcdef");
    let mut s = String::new();
    push_padded(&mut s, "äö", 4);
    assert_eq!(s, "  äö");
}

#[test]
fn concat_joins_in_order() {
    assert_eq!(join_all(&vec![]), "");
    assert_eq!(join_all(&vec!["│   ".to_string(), "    ".to_string(), "x".to_string()]), "│       x");
}

#[test]
fn chars_round_trip() {
    let chars = chars_of("a│b");
    assert_eq!(chars, vec!['a', '│', 'b']);
    assert_eq!(string_from(&chars, 0), "a│b");
    assert_eq!(string_from(&chars, 1), "│b");
    assert_eq!(string_from(&chars, 3), "");
}

#[test]
fn prefix_is_found_by_characters() {
    let full = chars_of("/home/user/x");
    assert!(has_prefix(&full, &chars_of("/home")));
    assert!(has_prefix(&full, &chars_of("")));
    assert!(has_prefix(&full, &chars_of("/home/user/x")));
    assert!(!has_prefix(&full, &chars_of("/home/user/x/")));
    assert!(!has_prefix(&full, &chars_of("/hone")));
}
