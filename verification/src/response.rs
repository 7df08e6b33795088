//! Response builder: maps the outcome of an operation to a status code and a
//! small body.

use crate::text::{decimal, decimal_text};
use vstd::prelude::*;
use vstd::string::*;

verus! {

/// An HTTP response: status code, content type and body.
#[derive(Debug, PartialEq, Eq)]
pub struct Response {
    pub status: u16,
    pub content_type: String,
    pub body: String,
}

/// The mathematical value of a [`Response`].
pub struct ResponseView {
    pub status: u16,
    pub content_type: Seq<char>,
    pub body: Seq<char>,
}

impl View for Response {
    type V = ResponseView;

    open spec fn view(&self) -> ResponseView {
        ResponseView { status: self.status, content_type: self.content_type@, body: self.body@ }
    }
}

/// What an operation came to, before it is put into a response.
#[derive(Debug, PartialEq, Eq)]
pub enum Outcome {
    /// The record was stored.
    Written,
    /// The record was found, and it carries this payload.
    Found(String),
    /// The record was found; nothing of it is reported but that it exists.
    Exists,
    /// The record was not found, or the backend failed while reading.
    Missing,
    /// The body of the request failed validation.
    Invalid,
    /// This many records matched the query.
    Counted(u64),
}

/// The mathematical value of an [`Outcome`].
pub enum OutcomeView {
    Written,
    Found(Seq<char>),
    Exists,
    Missing,
    Invalid,
    Counted(u64),
}

impl View for Outcome {
    type V = OutcomeView;

    open spec fn view(&self) -> OutcomeView {
        match self {
            Outcome::Written => OutcomeView::Written,
            Outcome::Found(payload) => OutcomeView::Found(payload@),
            Outcome::Exists => OutcomeView::Exists,
            Outcome::Missing => OutcomeView::Missing,
            Outcome::Invalid => OutcomeView::Invalid,
            Outcome::Counted(count) => OutcomeView::Counted(*count),
        }
    }
}

/// The content type of every response.
pub open spec fn content_type() -> Seq<char> {
    "text/json"@
}

/// Body of the response to a write that succeeded on `backend`.
pub open spec fn written_body(backend: Seq<char>) -> Seq<char> {
    "{\"result\": \"posted result on "@ + backend + "\"}"@
}

/// Body of the response to a read that found a record with `payload`. The
/// payload stands in the body as it was stored.
pub open spec fn found_body(id_field: Seq<char>, payload: Seq<char>) -> Seq<char> {
    "{\""@ + id_field + "\": \"exists\", \"payload\": "@ + payload + "}"@
}

/// Body of the response to a read that found a record.
pub open spec fn exists_body(id_field: Seq<char>) -> Seq<char> {
    "{\""@ + id_field + "\": \"exists\"}"@
}

/// Body of the response to a read that found nothing.
pub open spec fn missing_body(id_field: Seq<char>) -> Seq<char> {
    "{\""@ + id_field + "\": \"doesn't exist\"}"@
}

/// Body of the response to a request whose body failed validation.
pub open spec fn invalid_body() -> Seq<char> {
    "Invalid payload"@
}

/// Body of the response to a count query that found `count` records.
pub open spec fn stats_body(count: nat) -> Seq<char> {
    "{\"stats\": \""@ + decimal_text(count) + "\"}"@
}

/// The status code that reports `outcome`.
pub open spec fn status_for(outcome: OutcomeView) -> u16 {
    match outcome {
        OutcomeView::Written => 200,
        OutcomeView::Found(_) => 200,
        OutcomeView::Exists => 200,
        OutcomeView::Missing => 404,
        OutcomeView::Invalid => 400,
        OutcomeView::Counted(_) => 200,
    }
}

/// The body that reports `outcome`, for a handler whose identifier is called
/// `id_field` and whose backend is called `backend`.
pub open spec fn body_for(id_field: Seq<char>, backend: Seq<char>, outcome: OutcomeView) -> Seq<
    char,
> {
    match outcome {
        OutcomeView::Written => written_body(backend),
        OutcomeView::Found(payload) => found_body(id_field, payload),
        OutcomeView::Exists => exists_body(id_field),
        OutcomeView::Missing => missing_body(id_field),
        OutcomeView::Invalid => invalid_body(),
        OutcomeView::Counted(count) => stats_body(count as nat),
    }
}

/// The response that reports `outcome`.
pub open spec fn response_for(
    id_field: Seq<char>,
    backend: Seq<char>,
    outcome: OutcomeView,
) -> ResponseView {
    ResponseView {
        status: status_for(outcome),
        content_type: content_type(),
        body: body_for(id_field, backend, outcome),
    }
}

/// Builds the response that reports `outcome`.
pub fn respond(id_field: &str, backend: &str, outcome: &Outcome) -> (response: Response)
    ensures
        response@ == response_for(id_field@, backend@, outcome@),
{
    let (status, body): (u16, String) = match outcome {
        Outcome::Written => {
            let mut body = String::from_str("{\"result\": \"posted result on ");
            body.append(backend);
            body.append("\"}");
            (200, body)
        },
        Outcome::Found(payload) => {
            let mut body = String::from_str("{\"");
            body.append(id_field);
            body.append("\": \"exists\", \"payload\": ");
            body.append(payload.as_str());
            body.append("}");
            (200, body)
        },
        Outcome::Exists => {
            let mut body = String::from_str("{\"");
            body.append(id_field);
            body.append("\": \"exists\"}");
            (200, body)
        },
        Outcome::Missing => {
            let mut body = String::from_str("{\"");
            body.append(id_field);
            body.append("\": \"doesn't exist\"}");
            (404, body)
        },
        Outcome::Invalid => (400, String::from_str("Invalid payload")),
        Outcome::Counted(count) => {
            let digits = decimal(*count);
            let mut body = String::from_str("{\"stats\": \"");
            body.append(digits.as_str());
            body.append("\"}");
            (200, body)
        },
    };
    Response { status, content_type: String::from_str("text/json"), body }
}

} // verus!
