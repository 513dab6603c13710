use safe_url_paths::error::Error;
use safe_url_paths::template::{count_pairs, interpolate_fragments, push_dynamic, push_static};

#[test]
fn concatenation_keeps_literal_slashes_and_escapes_the_value() {
    let path = interpolate_fragments(&["users/", "/profile"], &["jane doe"]);
    assert_eq!(path, Ok("users/jane%20doe/profile".to_string()));
}

#[test]
fn a_slash_in_a_value_is_neutralized() {
    let path = interpolate_fragments(&["a/", ""], &["../b"]);
    assert_eq!(path, Ok("a/..%2Fb".to_string()));
}

#[test]
fn no_literal_at_all_is_invalid_input() {
    assert_eq!(interpolate_fragments(&[], &[]), Err(Error::InvalidInput));
    assert_eq!(interpolate_fragments(&[], &["x"]), Err(Error::InvalidInput));
}

#[test]
fn a_single_literal_is_encoded_alone() {
    assert_eq!(interpolate_fragments(&["a b/c"], &[]), Ok("a%20b/c".to_string()));
    assert_eq!(interpolate_fragments(&[""], &[]), Ok(String::new()));
}

#[test]
fn values_beyond_the_last_literal_are_ignored() {
    let path = interpolate_fragments(&["a/", "/b"], &["x", "y", "z"]);
    assert_eq!(path, Ok("a/x/b".to_string()));
    let alone = interpolate_fragments(&["only"], &["x", "y"]);
    assert_eq!(alone, Ok("only".to_string()));
}

#[test]
fn literals_beyond_the_last_value_are_ignored() {
    let path = interpolate_fragments(&["a/", "/b", "/c", "/d"], &["x"]);
    assert_eq!(path, Ok("a/x/b".to_string()));
}

#[test]
fn several_pairs_come_in_template_order() {
    let path = interpolate_fragments(&["/u/", "/p/", "/c/", ""], &["1", "2/3", "4"]);
    assert_eq!(path, Ok("/u/1/p/2%2F3/c/4".to_string()));
}

#[test]
fn multi_byte_text_is_escaped_byte_by_byte() {
    let path = interpolate_fragments(&["caf\u{e9}/", ""], &["\u{20ac}"]);
    assert_eq!(path, Ok("caf%C3%A9/%E2%82%AC".to_string()));
}

#[test]
fn a_percent_sign_is_escaped_in_literals_and_values() {
    let path = interpolate_fragments(&["100%/", ""], &["%2F"]);
    assert_eq!(path, Ok("100%25/%252F".to_string()));
}

#[test]
fn unreserved_text_passes_unchanged() {
    let text = "AZaz09-._~";
    assert_eq!(interpolate_fragments(&[text, text], &[text]), Ok(text.repeat(3)));
}

#[test]
fn push_static_appends_and_keeps_the_slash() {
    let mut out = String::from("x");
    push_static(&mut out, "a/b c");
    assert_eq!(out, "xa/b%20c");
    push_static(&mut out, "");
    assert_eq!(out, "xa/b%20c");
}

#[test]
fn push_dynamic_appends_and_escapes_the_slash() {
    let mut out = String::from("x");
    push_dynamic(&mut out, "a/b c");
    assert_eq!(out, "xa%2Fb%20c");
    push_dynamic(&mut out, "");
    assert_eq!(out, "xa%2Fb%20c");
}

#[test]
fn an_encoded_value_never_holds_a_slash() {
    let mut out = String::new();
    push_dynamic(&mut out, "/../..//etc/passwd?x=/");
    assert!(!out.contains('/'));
    assert_eq!(out, "%2F..%2F..%2F%2Fetc%2Fpasswd%3Fx%3D%2F");
}

#[test]
fn count_pairs_is_one_per_literal_after_the_first_that_has_a_value() {
    assert_eq!(count_pairs(0, 0), Err(Error::InvalidInput));
    assert_eq!(count_pairs(0, 5), Err(Error::InvalidInput));
    assert_eq!(count_pairs(1, 0), Ok(0));
    assert_eq!(count_pairs(1, 3), Ok(0));
    assert_eq!(count_pairs(3, 1), Ok(1));
    assert_eq!(count_pairs(3, 2), Ok(2));
    assert_eq!(count_pairs(3, 9), Ok(2));
    assert_eq!(count_pairs(usize::MAX, usize::MAX), Ok(usize::MAX - 1));
    assert_eq!(count_pairs(usize::MAX, 0), Ok(0));
}

#[test]
fn the_separators_of_a_path_are_those_of_its_literals() {
    let statics = ["/a//", "/b/", "c", "/unused/"];
    let dynamics = ["/x/", "////"];
    let path = interpolate_fragments(&statics, &dynamics).unwrap();
    assert_eq!(path, "/a//%2Fx%2F/b/%2F%2F%2F%2Fc");
    let in_path = path.matches('/').count();
    let in_literals: usize = statics[..3].iter().map(|s| s.matches('/').count()).sum();
    assert_eq!(in_path, in_literals);
    assert_eq!(in_path, 5);
}

#[test]
fn a_path_holds_unreserved_characters_percent_and_slash_only() {
    let all: Vec<u8> = (0x00..=0x7F).collect();
    let text = String::from_utf8(all).unwrap();
    let path = interpolate_fragments(&[&text, &text], &[&text, "\u{10348}"]).unwrap();
    assert!(path
        .chars()
        .all(|c| c.is_ascii_alphanumeric() || "-._~%/".contains(c)));
    assert_eq!(path.matches('/').count(), 2);
}

#[test]
fn encoding_a_fragment_in_two_parts_gives_the_parts_encoded() {
    let mut whole = String::new();
    push_dynamic(&mut whole, "a b/c d");
    let mut parts = String::new();
    push_dynamic(&mut parts, "a b");
    push_dynamic(&mut parts, "/c d");
    assert_eq!(whole, parts);
    assert_eq!(whole, "a%20b%2Fc%20d");
}
