//! The classification client's decision half. One classification is one round
//! trip: an instruction built from the schema description is sent with the
//! user's prompt to a model endpoint, and whatever comes back is decoded.
//!
//! The round trip itself is network I/O and lives with the caller; this module
//! fixes what is sent ([`instruction`]) and what every possible transport
//! result means ([`classify_reply`], [`outcome_of`]), so the whole decision is
//! verified for any reply the endpoint may produce.

use vstd::prelude::*;
use crate::error::{ClassificationError, ClassificationOutcome, ErrorView, OutcomeView};
use crate::grammar::pipeline;
use crate::parser::parse;
use crate::schema::{schema_description, schema_text, ClassificationResult};

verus! {

/// The instruction sent ahead of the user's prompt: the task statement with
/// the schema description embedded.
pub open spec fn instruction_text() -> Seq<char> {
    "You classify the user's description of a shape. Only include the properties field. Respond in formatted json following this schema: "@
        + schema_text()
}

/// The instruction that directs the model to answer in the schema format.
/// Pure and deterministic: always exactly [`instruction_text`].
pub fn instruction() -> (r: String)
    ensures
        r@ == instruction_text(),
{
    let head = String::from_str(
        "You classify the user's description of a shape. Only include the properties field. Respond in formatted json following this schema: ",
    );
    let schema = schema_description();
    head.concat(schema.as_str())
}

/// The result of one round trip, given what the transport returned: `None`
/// when the remote call itself failed and no reply text arrived, `Some` the
/// raw reply text.
///
/// A transport failure is a `Request` error; a reply is handed to the parser,
/// whose verdict — success or a `Decode` error carrying the reply — is
/// returned unchanged. No retry is made: one trigger is one attempt.
pub fn classify_reply(reply: Option<&str>) -> (r: Result<
    ClassificationResult,
    ClassificationError,
>)
    ensures
        match reply {
            None => r matches Err(e) && e@ == ErrorView::Request,
            Some(text) => match r {
                Ok(res) => pipeline(text@) == Some(res@),
                Err(e) => pipeline(text@) is None && (e@ matches ErrorView::Decode { raw_text }
                    && raw_text == text@),
            },
        },
{
    match reply {
        None => Err(ClassificationError::Request),
        Some(text) => parse(text),
    }
}

/// The tagged outcome written to the result store for a completed attempt.
pub fn outcome_of(r: Result<ClassificationResult, ClassificationError>) -> (o:
    ClassificationOutcome)
    ensures
        match r {
            Ok(res) => o@ == OutcomeView::Success(res@),
            Err(e) => o@ == OutcomeView::Failure(e@),
        },
{
    match r {
        Ok(res) => ClassificationOutcome::Success(res),
        Err(e) => ClassificationOutcome::Failure(e),
    }
}

} // verus!
