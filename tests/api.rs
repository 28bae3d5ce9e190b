use zero2prod::intake::{health_check, insert_finished, receive, IntakeAction, PersistenceError, Status};

fn status_of(body: &str) -> u16 {
    match receive(body.as_bytes()) {
        IntakeAction::Insert(_) => insert_finished(&Ok(())).status.code(),
        IntakeAction::Respond(reply) => reply.status.code(),
    }
}

#[test]
fn health_check_works() {
    let reply = health_check();
    assert!(reply.status.code() >= 200 && reply.status.code() < 300);
    assert_eq!(0, reply.body.len());
}

#[test]
fn subscriptions_subscribe_returns_a_200_for_valid_form_data() {
    let body = "name=le%20something&email=something-something%40gmail.com";
    match receive(body.as_bytes()) {
        IntakeAction::Insert(saved) => {
            assert_eq!(200, insert_finished(&Ok(())).status.code());
            assert_eq!(saved.email.as_str(), "something-something@gmail.com");
            assert_eq!(saved.name.as_str(), "le something");
        }
        IntakeAction::Respond(reply) => panic!("refused with {}", reply.status.code()),
    }
}

#[test]
fn health_check_subscribe_returns_a_200_for_valid_form_data() {
    let body = "name=le%20something&email=something-something%40gmail.com";
    assert_eq!(200, status_of(body));
    match receive(body.as_bytes()) {
        IntakeAction::Insert(saved) => {
            assert_eq!(saved.email.as_str(), "something-something@gmail.com");
            assert_eq!(saved.name.as_str(), "le something");
        }
        IntakeAction::Respond(_) => panic!("a valid form was refused"),
    }
}

#[test]
fn subscribe_returns_a_400_when_fields_are_present_but_invalid() {
    let test_cases = vec![
        ("name=&email=ursula_le_guin%40gmail.com", "empty name"),
        ("name=Ursuluta&email=", "empty email"),
        ("name=fred&email=something-that-is-not-email", "invalid email"),
    ];
    for (body, description) in test_cases {
        assert_eq!(
            400,
            status_of(body),
            "The API did not return a 200 OK when the payload was {}.",
            description
        );
    }
}

#[test]
fn subscriptions_subscribe_returns_a_400_when_data_is_missing() {
    let test_cases = vec![
        ("name=something", "missing the email"),
        ("email=ursula@something.com", "missing name"),
        ("", "Missing name and email"),
    ];
    for (invalid_body, error_message) in test_cases {
        assert_eq!(
            400,
            status_of(invalid_body),
            "The API did not fail with 400 when the payload was {}",
            error_message
        );
    }
}

#[test]
fn health_check_subscribe_returns_a_400_when_data_is_missing() {
    let test_cases = vec![
        ("name=something", "missing the email"),
        ("email=ursula@something.com", "missing name"),
        ("", "Missing name and email"),
    ];
    for (invalid_body, error_message) in test_cases {
        assert_eq!(
            400,
            status_of(invalid_body),
            "The API did not fail with 400 when the payload was {}",
            error_message
        );
    }
}

#[test]
fn a_failed_insert_answers_500() {
    let outcome = Err(PersistenceError { detail: "connection reset".to_string() });
    let reply = insert_finished(&outcome);
    assert_eq!(reply.status, Status::InternalServerError);
    assert_eq!(500, reply.status.code());
    assert!(reply.body.is_empty());
}

#[test]
fn a_stored_insert_answers_200_with_empty_body() {
    let reply = insert_finished(&Ok(()));
    assert_eq!(reply.status, Status::Success);
    assert!(reply.body.is_empty());
}

#[test]
fn refusals_have_empty_bodies() {
    match receive(b"name=&email=a%40b.c") {
        IntakeAction::Respond(reply) => {
            assert_eq!(reply.status, Status::BadRequest);
            assert!(reply.body.is_empty());
        }
        IntakeAction::Insert(_) => panic!("an empty name was accepted"),
    }
}

#[test]
fn a_forbidden_character_in_the_name_is_refused() {
    assert_eq!(400, status_of("name=%3Cscript%3E&email=a%40b.com"));
}

#[test]
fn a_name_of_spaces_is_refused() {
    assert_eq!(400, status_of("name=+++&email=a%40b.com"));
}

#[test]
fn status_codes() {
    assert_eq!(200, Status::Success.code());
    assert_eq!(400, Status::BadRequest.code());
    assert_eq!(500, Status::InternalServerError.code());
}

#[test]
fn a_valid_pair_with_every_byte_escaped_is_stored() {
    match receive(b"name=%41%6C&email=%61%40%62") {
        IntakeAction::Insert(saved) => {
            assert_eq!(saved.name.as_str(), "Al");
            assert_eq!(saved.email.as_str(), "a@b");
            assert_eq!(200, insert_finished(&Ok(())).status.code());
        }
        IntakeAction::Respond(_) => panic!("a valid pair was refused"),
    }
}

#[test]
fn a_body_that_is_not_a_form_is_refused() {
    assert_eq!(400, status_of("{\"name\": \"bob\", \"email\": \"b@c.d\"}"));
}
