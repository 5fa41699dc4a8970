use ferrite_nn::{form_get, parse_form, url_decode};

#[test]
fn url_decode_passes_plain_text() {
    assert_eq!(url_decode("hello"), "hello");
    assert_eq!(url_decode(""), "");
}

#[test]
fn url_decode_turns_plus_into_space() {
    assert_eq!(url_decode("a+b+c"), "a b c");
}

#[test]
fn url_decode_decodes_percent_escapes() {
    assert_eq!(url_decode("%41%62%63"), "Abc");
    assert_eq!(url_decode("100%25"), "100%");
    assert_eq!(url_decode("a%2Fb"), "a/b");
}

#[test]
fn url_decode_keeps_bad_escapes() {
    assert_eq!(url_decode("%zz"), "%zz");
    assert_eq!(url_decode("50%"), "50%");
    assert_eq!(url_decode("a%4"), "a%4");
}

#[test]
fn parse_form_splits_pairs() {
    let pairs = parse_form("name=xor+net&epochs=50");
    assert_eq!(pairs.len(), 2);
    assert_eq!(pairs[0], ("name".to_string(), "xor net".to_string()));
    assert_eq!(pairs[1], ("epochs".to_string(), "50".to_string()));
}

#[test]
fn parse_form_handles_missing_value_and_extra_equals() {
    let pairs = parse_form("flag&k=a=b");
    assert_eq!(pairs[0], ("flag".to_string(), "".to_string()));
    assert_eq!(pairs[1], ("k".to_string(), "a=b".to_string()));
}

#[test]
fn parse_form_decodes_keys_too() {
    let pairs = parse_form("my%20key=v%21");
    assert_eq!(pairs[0], ("my key".to_string(), "v!".to_string()));
}

#[test]
fn form_get_returns_first_match() {
    let pairs = vec![
        ("a".to_string(), "1".to_string()),
        ("b".to_string(), "2".to_string()),
        ("a".to_string(), "3".to_string()),
    ];
    assert_eq!(form_get(&pairs, "a"), Some("1"));
    assert_eq!(form_get(&pairs, "b"), Some("2"));
    assert_eq!(form_get(&pairs, "c"), None);
}
