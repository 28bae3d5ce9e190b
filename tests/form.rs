use zero2prod::form::{parse_subscribe_form, FormError};

#[test]
fn both_fields_are_decoded() {
    let f = parse_subscribe_form(b"name=le%20something&email=something-something%40gmail.com").unwrap();
    assert_eq!(f.name, "le something");
    assert_eq!(f.email, "something-something@gmail.com");
}

#[test]
fn plus_is_a_space_and_bad_escapes_stay() {
    let f = parse_subscribe_form(b"email=x%zz%4&name=a+b%2Bc").unwrap();
    assert_eq!(f.name, "a b+c");
    assert_eq!(f.email, "x%zz%4");
}

#[test]
fn escapes_in_either_case_are_decoded() {
    let f = parse_subscribe_form(b"name=%6a%4A&email=%40").unwrap();
    assert_eq!(f.name, "jJ");
    assert_eq!(f.email, "@");
}

#[test]
fn multibyte_text_is_decoded() {
    let f = parse_subscribe_form(b"name=Ren%C3%A9e&email=r%40x.fr").unwrap();
    assert_eq!(f.name, "Ren\u{e9}e");
}

#[test]
fn other_fields_and_empty_pieces_are_ignored() {
    let f = parse_subscribe_form(b"&&foo=bar&name=n&&email=e&nam=x").unwrap();
    assert_eq!(f.name, "n");
    assert_eq!(f.email, "e");
}

#[test]
fn a_field_without_equals_has_an_empty_value() {
    let f = parse_subscribe_form(b"name&email=e").unwrap();
    assert_eq!(f.name, "");
}

#[test]
fn only_the_first_equals_splits() {
    let f = parse_subscribe_form(b"name=a=b&email=e").unwrap();
    assert_eq!(f.name, "a=b");
}

#[test]
fn encoded_keys_are_matched() {
    let f = parse_subscribe_form(b"na%6De=x&%65mail=y").unwrap();
    assert_eq!(f.name, "x");
    assert_eq!(f.email, "y");
}

#[test]
fn missing_fields_are_reported() {
    for body in [&b""[..], &b"name=something"[..], &b"email=ursula@something.com"[..], &b"Name=a&Email=b"[..]] {
        assert_eq!(parse_subscribe_form(body).unwrap_err(), FormError::MissingField);
    }
}

#[test]
fn repeated_fields_are_reported() {
    assert_eq!(
        parse_subscribe_form(b"name=a&email=b&name=c").unwrap_err(),
        FormError::DuplicateField
    );
}

#[test]
fn invalid_utf8_is_reported() {
    assert_eq!(parse_subscribe_form(b"name=%FF&email=b").unwrap_err(), FormError::NotUtf8);
    assert_eq!(parse_subscribe_form(b"name=a&email=%C3").unwrap_err(), FormError::NotUtf8);
}
