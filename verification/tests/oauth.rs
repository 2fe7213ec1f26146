use rmap::oauth::access_token_of;

#[test]
fn access_token_is_read_from_the_reply() {
    let body = r#"{"access_token":"abc123","token_type":"bearer","scope":""}"#;
    assert_eq!(access_token_of(body), Some("abc123".to_string()));
}

#[test]
fn absent_access_token_reads_as_null() {
    let body = r#"{"error":"bad_verification_code"}"#;
    assert_eq!(access_token_of(body), Some("null".to_string()));
}

#[test]
fn reply_that_is_not_json_gives_nothing() {
    assert_eq!(access_token_of("access_token=abc123&scope="), None);
}
