use fastapi_verified::query::{hex_digit, percent_decode, Decoded, QueryString};

#[test]
fn empty_query_string() {
    let qs = QueryString::parse("");
    assert!(qs.is_empty());
    assert_eq!(qs.len(), 0);
    assert_eq!(qs.get("any"), None);
}

#[test]
fn single_param() {
    let qs = QueryString::parse("name=alice");
    assert!(!qs.is_empty());
    assert_eq!(qs.len(), 1);
    assert_eq!(qs.get("name"), Some("alice"));
    assert_eq!(qs.get("other"), None);
}

#[test]
fn multiple_params() {
    let qs = QueryString::parse("a=1&b=2&c=3");
    assert_eq!(qs.len(), 3);
    assert_eq!(qs.get("a"), Some("1"));
    assert_eq!(qs.get("b"), Some("2"));
    assert_eq!(qs.get("c"), Some("3"));
}

#[test]
fn duplicate_keys() {
    let qs = QueryString::parse("a=1&b=2&a=3");
    assert_eq!(qs.get("a"), Some("1"));
    let all_a = qs.get_all("a");
    assert_eq!(all_a, vec!["1", "3"]);
}

#[test]
fn empty_value() {
    let qs = QueryString::parse("name=&age=30");
    assert_eq!(qs.get("name"), Some(""));
    assert_eq!(qs.get("age"), Some("30"));
}

#[test]
fn key_without_value() {
    let qs = QueryString::parse("flag&name=alice");
    assert!(qs.contains("flag"));
    assert_eq!(qs.get("flag"), Some(""));
    assert_eq!(qs.get("name"), Some("alice"));
}

#[test]
fn percent_encoded_value() {
    let qs = QueryString::parse("msg=hello%20world");
    assert_eq!(qs.get("msg"), Some("hello%20world"));
    assert_eq!(qs.get_decoded("msg").as_deref(), Some("hello world"));
}

#[test]
fn plus_as_space() {
    let qs = QueryString::parse("msg=hello+world");
    assert_eq!(qs.get("msg"), Some("hello+world"));
    assert_eq!(qs.get_decoded("msg").as_deref(), Some("hello world"));
}

#[test]
fn utf8_encoded() {
    let qs = QueryString::parse("word=caf%C3%A9");
    assert_eq!(qs.get_decoded("word").as_deref(), Some("café"));
}

#[test]
fn special_chars_encoded() {
    let qs = QueryString::parse("data=a%26b%3Dc");
    assert_eq!(qs.get_decoded("data").as_deref(), Some("a&b=c"));
}

#[test]
fn pairs_iterator() {
    let qs = QueryString::parse("a=1&b=2&c=3");
    let pairs = qs.pairs();
    assert_eq!(pairs, vec![("a", "1"), ("b", "2"), ("c", "3")]);
}

#[test]
fn pairs_decoded_iterator() {
    let qs = QueryString::parse("name=hello%20world&id=123");
    let pairs = qs.pairs_decoded();
    assert_eq!(pairs[0].0, "name");
    assert_eq!(&*pairs[0].1, "hello world");
    assert_eq!(pairs[1].0, "id");
    assert_eq!(&*pairs[1].1, "123");
}

#[test]
fn to_pairs() {
    let qs = QueryString::parse("x=1&y=2");
    let pairs = qs.to_pairs();
    assert_eq!(pairs, vec![("x", "1"), ("y", "2")]);
}

#[test]
fn contains() {
    let qs = QueryString::parse("a=1&b=2");
    assert!(qs.contains("a"));
    assert!(qs.contains("b"));
    assert!(!qs.contains("c"));
}

#[test]
fn raw_accessor() {
    let qs = QueryString::parse("a=1&b=2");
    assert_eq!(qs.raw(), "a=1&b=2");
}

#[test]
fn trailing_ampersand() {
    let qs = QueryString::parse("a=1&b=2&");
    assert_eq!(qs.len(), 2);
    assert_eq!(qs.get("a"), Some("1"));
    assert_eq!(qs.get("b"), Some("2"));
}

#[test]
fn leading_ampersand() {
    let qs = QueryString::parse("&a=1&b=2");
    assert_eq!(qs.len(), 2);
    assert_eq!(qs.get("a"), Some("1"));
    assert_eq!(qs.get("b"), Some("2"));
}

#[test]
fn percent_decode_no_encoding() {
    let s = "hello";
    let decoded = percent_decode(s);
    assert!(matches!(decoded, Decoded::Borrowed(_)));
    assert_eq!(&*decoded, "hello");
}

#[test]
fn percent_decode_simple() {
    assert_eq!(&*percent_decode("hello%20world"), "hello world");
    assert_eq!(&*percent_decode("%2F"), "/");
    assert_eq!(&*percent_decode("%3D"), "=");
}

#[test]
fn percent_decode_invalid_hex() {
    assert_eq!(&*percent_decode("%ZZ"), "%ZZ");
    assert_eq!(&*percent_decode("%2"), "%2");
}

#[test]
fn percent_decode_mixed() {
    assert_eq!(&*percent_decode("a%20b%20c"), "a b c");
    assert_eq!(&*percent_decode("hello+world%21"), "hello world!");
}

#[test]
fn hex_digit_values() {
    assert_eq!(hex_digit(b'0'), Some(0));
    assert_eq!(hex_digit(b'9'), Some(9));
    assert_eq!(hex_digit(b'a'), Some(10));
    assert_eq!(hex_digit(b'f'), Some(15));
    assert_eq!(hex_digit(b'A'), Some(10));
    assert_eq!(hex_digit(b'F'), Some(15));
    assert_eq!(hex_digit(b'g'), None);
    assert_eq!(hex_digit(b'Z'), None);
}

#[test]
fn default_is_empty() {
    let qs = QueryString::default();
    assert!(qs.is_empty());
    assert_eq!(qs.len(), 0);
}

#[test]
fn acceptance_criteria_test() {
    let qs = QueryString::parse("a=1&b=2&a=3");
    assert_eq!(qs.get("a"), Some("1"));
    let all_a = qs.get_all("a");
    assert_eq!(all_a, vec!["1", "3"]);
    assert_eq!(qs.get("b"), Some("2"));
    assert_eq!(qs.len(), 3);
}

#[test]
fn first_value_is_first_of_all_values() {
    let qs = QueryString::parse("k=x&j=y&k=z");
    let all = qs.get_all("k");
    assert_eq!(qs.get("k"), all.first().copied());
    assert_eq!(qs.get("missing"), qs.get_all("missing").first().copied());
}

#[test]
fn value_with_equals_sign_keeps_rest() {
    let qs = QueryString::parse("expr=a=b");
    assert_eq!(qs.get("expr"), Some("a=b"));
}

#[test]
fn invalid_utf8_after_decoding_is_replaced() {
    assert_eq!(&*percent_decode("%FF"), "\u{FFFD}");
}
