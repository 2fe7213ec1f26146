use rmap::util::{parse_key, to_slice};

#[test]
fn key_parses_whitespace_separated_bytes() {
    assert_eq!(parse_key("1 2\t3\n 255  +4"), Some(vec![1, 2, 3, 255, 4]));
    assert_eq!(parse_key(""), Some(vec![]));
    assert_eq!(parse_key("1\u{3000}2"), Some(vec![1, 2]));
}

#[test]
fn key_rejects_non_bytes() {
    assert_eq!(parse_key("1 256"), None);
    assert_eq!(parse_key("1 x"), None);
    assert_eq!(parse_key("-1"), None);
}

#[test]
fn key_slice_takes_sixteen_bytes() {
    let v: Vec<u8> = (0..20).collect();
    let k = to_slice(&v);
    assert_eq!(k, [0, 1, 2, 3, 4, 5, 6, 7, 8, 9, 10, 11, 12, 13, 14, 15]);
}
