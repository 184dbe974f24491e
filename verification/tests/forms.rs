use tplcore::errors::ServiceError;
use tplcore::forms::parse_rename_form;
use tplcore::forms::pct_decode_bytes;

fn parsed(body: &[u8]) -> String {
    parse_rename_form(body).unwrap().name
}

fn rejected(body: &[u8]) {
    assert_eq!(parse_rename_form(body).unwrap_err(), ServiceError::FormDecodeError);
}

#[test]
fn plain_name_field_parses() {
    assert_eq!(parsed(b"name=Alice"), "Alice");
}

#[test]
fn absent_name_field_is_a_client_error() {
    rejected(b"other=x");
    rejected(b"");
    assert_eq!(ServiceError::FormDecodeError.status_code(), 400);
}

#[test]
fn percent_escapes_decode() {
    assert_eq!(parsed(b"name=A%20B%2Bc"), "A B+c");
    assert_eq!(parsed(b"name=a+b"), "a b");
}

#[test]
fn invalid_escapes_pass_through_literally() {
    assert_eq!(parsed(b"name=100%"), "100%");
    assert_eq!(parsed(b"name=%zz"), "%zz");
    assert_eq!(parsed(b"name=%4"), "%4");
}

#[test]
fn repeated_name_field_is_rejected() {
    rejected(b"name=a&name=b");
}

#[test]
fn other_fields_are_ignored() {
    assert_eq!(parsed(b"foo=1&name=Bob&bar=2"), "Bob");
}

#[test]
fn percent_encoded_key_still_matches() {
    assert_eq!(parsed(b"na%6De=x"), "x");
}

#[test]
fn name_without_equals_or_value_is_empty() {
    assert_eq!(parsed(b"name="), "");
    assert_eq!(parsed(b"name"), "");
}

#[test]
fn invalid_utf8_value_is_rejected() {
    rejected(b"name=%FF");
    rejected(b"name=%C3%28");
}

#[test]
fn multibyte_utf8_value_decodes() {
    assert_eq!(parsed(b"name=%C3%A9"), "\u{e9}");
}

#[test]
fn decoder_converts_plus_and_hex_pairs() {
    assert_eq!(pct_decode_bytes(b"a+b%21"), b"a b!".to_vec());
    assert_eq!(pct_decode_bytes(b""), Vec::<u8>::new());
    assert_eq!(pct_decode_bytes(b"%%41"), b"%A".to_vec());
}
