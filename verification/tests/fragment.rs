use getline::fragment::split_at_colon;

#[test]
fn split_without_colon() {
    assert_eq!(split_at_colon("abc"), ("abc", None));
    assert_eq!(split_at_colon("3"), ("3", None));
    assert_eq!(split_at_colon(""), ("", None));
}

#[test]
fn split_at_the_one_colon() {
    assert_eq!(split_at_colon("3:5"), ("3", Some("5")));
    assert_eq!(split_at_colon("12:345"), ("12", Some("345")));
    assert_eq!(split_at_colon("a:"), ("a", Some("")));
    assert_eq!(split_at_colon(":b"), ("", Some("b")));
    assert_eq!(split_at_colon(":"), ("", Some("")));
}

#[test]
fn split_at_the_first_of_many_colons() {
    assert_eq!(split_at_colon("1:2:3"), ("1", Some("2:3")));
    assert_eq!(split_at_colon("::"), ("", Some(":")));
    assert_eq!(split_at_colon("a::b"), ("a", Some(":b")));
}

#[test]
fn split_counts_characters_not_bytes() {
    assert_eq!(
        split_at_colon("\u{00e9}t\u{00e9}:\u{00fc}ber"),
        ("\u{00e9}t\u{00e9}", Some("\u{00fc}ber"))
    );
    assert_eq!(
        split_at_colon("\u{1f600}:\u{4e2d}\u{6587}:x"),
        ("\u{1f600}", Some("\u{4e2d}\u{6587}:x"))
    );
    assert_eq!(split_at_colon("\u{ff1a}"), ("\u{ff1a}", None));
}
