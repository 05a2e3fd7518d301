//! How a request can fail.
use crate::json::{Doc, Json};
use vstd::prelude::*;

verus! {

/// The kinds of failure that a caller is told.
#[derive(Clone, Copy, Debug, PartialEq, Eq, Structural)]
pub enum Status {
    BadRequest,
    Unauthorized,
    NotFound,
    Conflict,
    Internal,
    BadGateway,
}

impl Status {
    /// The number of the kind in HTTP.
    pub open spec fn number(self) -> u16 {
        match self {
            Status::BadRequest => 400,
            Status::Unauthorized => 401,
            Status::NotFound => 404,
            Status::Conflict => 409,
            Status::Internal => 500,
            Status::BadGateway => 502,
        }
    }

    pub fn code(self) -> (r: u16)
        ensures
            r == self.number(),
    {
        match self {
            Status::BadRequest => 400,
            Status::Unauthorized => 401,
            Status::NotFound => 404,
            Status::Conflict => 409,
            Status::Internal => 500,
            Status::BadGateway => 502,
        }
    }
}

/// A failure: its kind, and a message for the caller.
#[derive(Debug)]
pub struct Failure {
    pub status: Status,
    pub message: String,
}

impl View for Failure {
    type V = (Status, Seq<char>);

    open spec fn view(&self) -> (Status, Seq<char>) {
        (self.status, self.message@)
    }
}

pub fn fail(status: Status, message: &str) -> (r: Failure)
    ensures
        r@ == (status, message@),
{
    Failure { status, message: message.to_owned() }
}

/// What an answer says, or how it failed.
pub open spec fn outcome(r: Result<Json, Failure>) -> Result<Doc, (Status, Seq<char>)> {
    match r {
        Ok(j) => Ok(j@),
        Err(f) => Err(f@),
    }
}

/// What a list says, or how a request failed.
pub open spec fn docs_outcome(r: Result<Vec<Json>, Failure>) -> Result<
    Seq<Doc>,
    (Status, Seq<char>),
> {
    match r {
        Ok(v) => Ok(crate::json::docs(v@)),
        Err(f) => Err(f@),
    }
}

/// The answer to a request that was carried out.
pub open spec fn done() -> Doc {
    Doc::object().with("ok"@, Doc::Bool(true))
}

pub fn ok_answer() -> (r: Json)
    ensures
        r@ == done(),
{
    Json::object().with("ok", Json::Bool(true))
}

/// A list of items as an answer.
pub open spec fn listing(items: Seq<Doc>) -> Doc {
    Doc::object().with("items"@, Doc::Array(items))
}

pub fn list_answer(items: Vec<Json>) -> (r: Json)
    ensures
        r@ == listing(crate::json::docs(items@)),
{
    Json::object().with("items", Json::list(items))
}

/// What a text says, or how a request failed.
pub open spec fn text_outcome(r: Result<String, Failure>) -> Result<Seq<char>, (Status, Seq<char>)> {
    match r {
        Ok(s) => Ok(s@),
        Err(f) => Err(f@),
    }
}

/// The answer to a record that was stored under an id.
pub open spec fn stored_under(id: Seq<char>) -> Doc {
    done().with("id"@, Doc::Str(id))
}

pub fn id_answer(id: &str) -> (r: Json)
    ensures
        r@ == stored_under(id@),
{
    ok_answer().with_text("id", id)
}

/// The number of each kind of failure in HTTP.
pub proof fn law_numbers()
    ensures
        Status::BadRequest.number() == 400,
        Status::Unauthorized.number() == 401,
        Status::NotFound.number() == 404,
        Status::Conflict.number() == 409,
        Status::Internal.number() == 500,
        Status::BadGateway.number() == 502,
{
}

/// What the answers say: that a request was carried out, the items that were
/// asked for in their order, and the id under which a record was stored.
pub proof fn law_answers(items: Seq<Doc>, id: Seq<char>, k: Seq<char>)
    ensures
        done().get("ok"@) == Some(Doc::Bool(true)),
        done().has(k) ==> k == "ok"@,
        listing(items).items_at("items"@) == Some(items),
        listing(items).has(k) ==> k == "items"@,
        stored_under(id).get("ok"@) == Some(Doc::Bool(true)),
        stored_under(id).text_at("id"@) == Some(id),
        stored_under(id).has(k) ==> k == "ok"@ || k == "id"@,
{
    reveal_strlit("ok");
    reveal_strlit("id");
    assert("ok"@[0] != "id"@[0]);
}

} // verus!
