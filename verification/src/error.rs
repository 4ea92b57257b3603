//! The error taxonomy of one classification attempt, and the tagged outcome
//! that the pipeline hands to the result store.

use vstd::prelude::*;
use crate::schema::{ClassificationResult, ResultView};

verus! {

/// Why a classification attempt failed.
#[derive(Debug)]
pub enum ClassificationError {
    /// The remote call itself failed: network, auth, or a provider-side error.
    /// The reply text never arrived.
    Request,
    /// The remote call succeeded but the reply did not conform to the schema
    /// after fence stripping. Carries the offending raw reply, unmodified,
    /// for diagnostics.
    Decode { raw_text: String },
}

/// The mathematical value of a [`ClassificationError`].
#[verifier::ext_equal]
pub enum ErrorView {
    Request,
    Decode { raw_text: Seq<char> },
}

impl View for ClassificationError {
    type V = ErrorView;

    open spec fn view(&self) -> ErrorView {
        match self {
            ClassificationError::Request => ErrorView::Request,
            ClassificationError::Decode { raw_text } => ErrorView::Decode { raw_text: raw_text@ },
        }
    }
}

impl Clone for ClassificationError {
    fn clone(&self) -> (r: Self)
        ensures
            r@ == self@,
    {
        match self {
            ClassificationError::Request => ClassificationError::Request,
            ClassificationError::Decode { raw_text } => {
                let r = ClassificationError::Decode { raw_text: raw_text.clone() };
                assert(r@ =~= self@);
                r
            },
        }
    }
}

/// The result of one completed classification attempt: exactly one of a fully
/// decoded record or a typed failure.
#[derive(Debug)]
pub enum ClassificationOutcome {
    Success(ClassificationResult),
    Failure(ClassificationError),
}

/// The mathematical value of a [`ClassificationOutcome`].
#[verifier::ext_equal]
pub enum OutcomeView {
    Success(ResultView),
    Failure(ErrorView),
}

impl View for ClassificationOutcome {
    type V = OutcomeView;

    open spec fn view(&self) -> OutcomeView {
        match self {
            ClassificationOutcome::Success(res) => OutcomeView::Success(res@),
            ClassificationOutcome::Failure(err) => OutcomeView::Failure(err@),
        }
    }
}

impl Clone for ClassificationOutcome {
    fn clone(&self) -> (r: Self)
        ensures
            r@ == self@,
    {
        match self {
            ClassificationOutcome::Success(res) => ClassificationOutcome::Success(res.clone()),
            ClassificationOutcome::Failure(err) => ClassificationOutcome::Failure(err.clone()),
        }
    }
}

/// The value of an optional outcome, as read back from the result store.
pub open spec fn opt_outcome_view(o: Option<ClassificationOutcome>) -> Option<OutcomeView> {
    match o {
        Option::None => Option::None,
        Option::Some(out) => Option::Some(out@),
    }
}

} // verus!
