use dav_contacts::card::{CardError, Contact};

fn contact(id: &str, name: &str, email: &str, phone: &str) -> Contact {
    Contact {
        id: id.to_string(),
        name: name.to_string(),
        email: email.to_string(),
        phone: phone.to_string(),
    }
}

#[test]
fn encode_writes_fields_in_fixed_order() {
    let c = contact("c1", "Alice", "a@x.com", "555");
    assert_eq!(
        c.encode(),
        "BEGIN:VCARD\nVERSION:4.0\nID:c1\nFN:Alice\nEMAIL:a@x.com\nTEL:555\nEND:VCARD\n"
    );
}

#[test]
fn encode_is_deterministic() {
    let a = contact("x", "Bob", "", "1");
    let b = contact("x", "Bob", "", "1");
    assert_eq!(a.encode(), b.encode());
}

#[test]
fn round_trip_with_external_id() {
    let c = contact("c1", "Alice", "a@x.com", "555");
    assert_eq!(Contact::decode(&c.encode(), Some("c1")), Ok(c));
}

#[test]
fn round_trip_with_empty_fields() {
    let c = contact("only-id", "", "", "");
    assert_eq!(Contact::decode(&c.encode(), Some("only-id")), Ok(c));
}

#[test]
fn decode_empty_text_is_empty_input() {
    assert_eq!(Contact::decode("", None), Err(CardError::EmptyInput));
}

#[test]
fn decode_without_identifier_is_missing_identifier() {
    assert_eq!(Contact::decode("FN:Alice", None), Err(CardError::MissingIdentifier));
}

#[test]
fn decode_unrecognised_lines_only_is_empty_even_with_external_id() {
    assert_eq!(
        Contact::decode("BEGIN:VCARD\nNOTE:hi\nEND:VCARD\n", Some("c1")),
        Err(CardError::EmptyInput)
    );
}

#[test]
fn decode_uses_embedded_identifier() {
    assert_eq!(
        Contact::decode("TEL:42\nID:abc\n", None),
        Ok(contact("abc", "", "", "42"))
    );
}

#[test]
fn decode_external_identifier_takes_precedence() {
    assert_eq!(
        Contact::decode("ID:inner\nFN:Ann\n", Some("outer")),
        Ok(contact("outer", "Ann", "", ""))
    );
}

#[test]
fn decode_later_line_replaces_earlier() {
    assert_eq!(
        Contact::decode("ID:a\nFN:First\nFN:Second", None),
        Ok(contact("a", "Second", "", ""))
    );
}

#[test]
fn decode_strips_one_prefix_and_crlf() {
    assert_eq!(
        Contact::decode("ID:ID:x\r\nEMAIL:e@y\r\n", None),
        Ok(contact("ID:x", "", "e@y", ""))
    );
}

#[test]
fn decode_ignores_lines_that_only_contain_a_key() {
    assert_eq!(
        Contact::decode(" FN:x\nXID:1\nID:\n", Some("k")),
        Ok(contact("k", "", "", ""))
    );
}
