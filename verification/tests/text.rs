use skills::digest::{full_hex, full_lower_hex, hex_lower};
use skills::held_out::hash_payload;
use skills::json::{canonicalize_json, parse_json, render_json, JsonValue};
use skills::text;

#[test]
fn texts_are_trimmed_split_and_joined_as_std_does() {
    for s in ["", "  ", " a b ", "\u{3000}x\u{a0}", "line\r\nnext\n", "a\n\nb", "\r", "x\r\n"] {
        assert_eq!(text::trim(s), s.trim(), "{s:?}");
        assert_eq!(text::blank(s), s.trim().is_empty(), "{s:?}");
        let lines: Vec<String> = s.lines().map(|l| l.to_string()).collect();
        assert_eq!(text::split_lines(s), lines, "{s:?}");
        let words: Vec<String> = s.split_whitespace().map(|l| l.to_string()).collect();
        assert_eq!(text::split_words(s), words, "{s:?}");
        assert_eq!(text::byte_len(s), s.len(), "{s:?}");
    }
    assert_eq!(text::strip_trailing("a//", '/'), "a");
    assert_eq!(
        text::join(&vec!["a".to_string(), "b".to_string()], ", "),
        "a, b"
    );
}

#[test]
fn numbers_are_rendered_in_decimal() {
    for n in [0u64, 9, 10, 12345, u64::MAX] {
        assert_eq!(text::render_u64(n), n.to_string());
    }
    for n in [0i64, -1, 42, i64::MIN, i64::MAX] {
        assert_eq!(text::render_i64(n), n.to_string());
    }
    assert_eq!(text::render_u128(u128::MAX), u128::MAX.to_string());
}

#[test]
fn cuts_fall_between_characters() {
    let s = "aé漢🦀z";
    for max in 0..=s.len() {
        let cut = text::truncate_to_bytes(s, max);
        assert!(cut.len() <= max);
        assert!(s.starts_with(&cut));
        let mut end = max;
        while !s.is_char_boundary(end) {
            end -= 1;
        }
        assert_eq!(cut, s[..end]);
    }
}

#[test]
fn texts_are_ordered_as_std_orders_them() {
    let words = vec!["b", "a", "", "ab", "é", "z", "漢", "A"];
    let mut sorted: Vec<String> = words.iter().map(|w| w.to_string()).collect();
    sorted.sort();
    assert_eq!(
        text::sort_strings(words.iter().map(|w| w.to_string()).collect()),
        sorted
    );
    assert!(text::text_le("a", "a") && text::text_le("a", "b") && !text::text_le("b", "a"));
}

#[test]
fn hashes_are_rendered_in_lower_case() {
    assert_eq!(
        hash_payload(""),
        "e3b0c44298fc1c149afbf4c8996fb92427ae41e4649b934ca495991b7852b855"
    );
    assert_eq!(hex_lower(&vec![0, 15, 255]), "000fff");
    assert!(full_hex(&"A".repeat(64)) && !full_lower_hex(&"A".repeat(64)));
    assert!(full_lower_hex(&"a".repeat(64)) && !full_lower_hex(&"a".repeat(63)));
}

#[test]
fn documents_are_read_and_written_again() {
    let text = "{\"b\":[1,-2,true,null,\"x\"],\"a\":{}}";
    let tree = parse_json(text).unwrap();
    match &tree {
        JsonValue::Object(entries) => assert_eq!(entries.len(), 2),
        _ => panic!("an object was written"),
    }
    let again = render_json(tree).unwrap();
    assert_eq!(again, canonicalize_json(text).unwrap());
    assert_eq!(canonicalize_json(" [ 1 , 2 ] ").unwrap(), "[1,2]");
    assert!(parse_json("{").is_none());
    assert!(canonicalize_json("{").is_err());
}
