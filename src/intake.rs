use vstd::prelude::*;
use crate::domain::{is_valid_email, is_valid_name, NewSubscriber};
use crate::form::{
    email_key, form_error, form_text, lemma_subscription_body_round_trip, name_key,
    parse_subscribe_form, subscription_body,
};

verus! {

/// The statuses this service answers with.
#[derive(Debug, Clone, Copy, PartialEq, Eq, Structural)]
pub enum Status {
    Success,
    BadRequest,
    InternalServerError,
}

impl Status {
    pub open spec fn spec_code(self) -> u16 {
        match self {
            Status::Success => 200,
            Status::BadRequest => 400,
            Status::InternalServerError => 500,
        }
    }

    /// The HTTP status code.
    #[verifier::when_used_as_spec(spec_code)]
    pub fn code(self) -> (r: u16)
        ensures
            r == self.spec_code(),
    {
        match self {
            Status::Success => 200,
            Status::BadRequest => 400,
            Status::InternalServerError => 500,
        }
    }
}

/// An answer to a request: a status and a body.
#[derive(Debug)]
pub struct Reply {
    pub status: Status,
    pub body: Vec<u8>,
}

fn empty_reply(status: Status) -> (r: Reply)
    ensures
        r.status == status,
        r.body@.len() == 0,
{
    Reply { status, body: Vec::new() }
}

/// `GET /health_check`: always 200, with an empty body.
pub fn health_check() -> (r: Reply)
    ensures
        r.status == Status::Success,
        r.body@.len() == 0,
{
    empty_reply(Status::Success)
}

/// The store failed to take a row: lost connection, a constraint, a timeout.
/// The detail is for the operator's logs, never for the client.
#[derive(Debug)]
pub struct PersistenceError {
    pub detail: String,
}

/// What the caller must do next with a subscription request.
#[derive(Debug)]
pub enum IntakeAction {
    /// Insert this subscriber, then report the outcome to `insert_finished`.
    Insert(NewSubscriber),
    /// Answer at once: the request was refused.
    Respond(Reply),
}

/// A body that decodes to one name and one email, both of which are valid.
pub open spec fn accepted(body: Seq<u8>) -> bool {
    &&& form_error(body) is None
    &&& is_valid_name(form_text(body, name_key()))
    &&& is_valid_email(form_text(body, email_key()))
}

/// The row that a request with `body` asks to store: its name and its email.
pub open spec fn requested_row(body: Seq<u8>) -> Option<(Seq<char>, Seq<char>)> {
    if accepted(body) {
        Some((form_text(body, name_key()), form_text(body, email_key())))
    } else {
        None
    }
}

/// The status that ends a request with `body`, where an insert, if one is made,
/// succeeds exactly when `insert_ok`.
pub open spec fn final_status(body: Seq<u8>, insert_ok: bool) -> Status {
    if !accepted(body) {
        Status::BadRequest
    } else if insert_ok {
        Status::Success
    } else {
        Status::InternalServerError
    }
}

/// `POST /subscriptions`, from the received body up to validation: either the
/// subscriber to insert, or the refusal. A body that is not a form with both
/// fields, or whose fields do not validate, is refused with 400.
pub fn receive(body: &[u8]) -> (a: IntakeAction)
    ensures
        a is Insert <==> accepted(body@),
        a matches IntakeAction::Insert(s) ==> requested_row(body@) == Some((s.name@, s.email@)),
        a matches IntakeAction::Respond(r) ==> r.status == final_status(body@, false)
            && r.body@.len() == 0,
{
    match parse_subscribe_form(body) {
        Err(_) => IntakeAction::Respond(empty_reply(Status::BadRequest)),
        Ok(form) => match NewSubscriber::parse(form.name.as_str(), form.email.as_str()) {
            Ok(subscriber) => IntakeAction::Insert(subscriber),
            Err(_) => IntakeAction::Respond(empty_reply(Status::BadRequest)),
        },
    }
}

/// `POST /subscriptions`, once the insert of an accepted body has finished:
/// 200 when it succeeded, 500 when the store failed.
pub fn insert_finished(outcome: &Result<(), PersistenceError>) -> (r: Reply)
    ensures
        r.status == (if outcome is Ok {
            Status::Success
        } else {
            Status::InternalServerError
        }),
        r.body@.len() == 0,
{
    match outcome {
        Ok(()) => empty_reply(Status::Success),
        Err(_) => empty_reply(Status::InternalServerError),
    }
}


/// For every name and email that pass validation, the subscription request
/// that carries them asks to store exactly one row, holding exactly that name
/// and that email, and ends in 200 once that row is stored.
pub proof fn lemma_valid_pair_is_stored(name: Seq<char>, email: Seq<char>)
    requires
        is_valid_name(name),
        is_valid_email(email),
    ensures
        accepted(subscription_body(name, email)),
        requested_row(subscription_body(name, email)) == Some((name, email)),
        final_status(subscription_body(name, email), true) == Status::Success,
{
    lemma_subscription_body_round_trip(name, email);
}

} // verus!
