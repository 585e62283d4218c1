use twitter_stream::util::{fmt_join, HttpBodyAsStream, Token};

#[test]
fn fmt_join_cases() {
    let items = vec!["1".to_string(), "22".to_string(), "333".to_string()];
    assert_eq!(fmt_join(&items, ","), "1,22,333");
    assert_eq!(fmt_join(&items, ", "), "1, 22, 333");
    assert_eq!(fmt_join(&items[..1], ","), "1");
    assert_eq!(fmt_join(&[], ","), "");
    let blanks = vec![String::new(), String::new()];
    assert_eq!(fmt_join(&blanks, "-"), "-");
}

#[test]
fn body_wrapper_holds_body() {
    let b = HttpBodyAsStream::new(vec![1u8, 2, 3]);
    assert_eq!(b.inner, vec![1u8, 2, 3]);
}

#[test]
fn token_fields() {
    let t = Token("key", "secret");
    assert_eq!(t.clone(), Token("key", "secret"));
    assert_ne!(t, Token("key", "other"));
}
