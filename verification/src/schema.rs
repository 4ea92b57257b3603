//! The fixed response schema: the shape enumeration, the decoded
//! classification record, and the machine-readable schema description that is
//! embedded into the instruction sent to the model.

use vstd::prelude::*;

verus! {

/// The closed set of shape categories a reply may name. On the wire the first
/// variant is the string `"None"`: itself a valid classification, meaning the
/// prompt described no shape.
#[derive(Clone, Copy, Debug, PartialEq, Eq, Structural)]
pub enum ShapeKind {
    NoShape,
    Circle,
    Square,
    Triangle,
}

/// A fully decoded model reply. Either every field decoded, or the whole
/// attempt failed: there is no partially filled record.
///
/// `count` may be zero or negative — a misbehaving model may send any integer,
/// and the record carries it as received.
#[derive(Debug)]
pub struct ClassificationResult {
    /// Whether the model judged the prompt classifiable.
    pub valid: bool,
    /// Human-readable explanation; meaningful only when `valid` is false.
    pub error: String,
    /// The recognised shape category.
    pub shape: ShapeKind,
    /// Requested quantity of the shape, as the model sent it.
    pub count: i32,
}

/// The mathematical value of a [`ClassificationResult`]: the same fields over
/// `Seq<char>` and `int`.
#[verifier::ext_equal]
pub struct ResultView {
    pub valid: bool,
    pub error: Seq<char>,
    pub shape: ShapeKind,
    pub count: int,
}

impl View for ClassificationResult {
    type V = ResultView;

    open spec fn view(&self) -> ResultView {
        ResultView {
            valid: self.valid,
            error: self.error@,
            shape: self.shape,
            count: self.count as int,
        }
    }
}

impl Clone for ClassificationResult {
    fn clone(&self) -> (r: Self)
        ensures
            r@ == self@,
    {
        let r = ClassificationResult {
            valid: self.valid,
            error: self.error.clone(),
            shape: self.shape,
            count: self.count,
        };
        assert(r@ =~= self@);
        r
    }
}

/// The schema description as a sequence of characters: every field of
/// [`ClassificationResult`] with its type, and the full [`ShapeKind`]
/// enumeration, so the model has no ambiguity about allowed values.
pub open spec fn schema_text() -> Seq<char> {
    "{ \"valid\": boolean, \"error\": string, \"shape\": \"None\" | \"Circle\" | \"Square\" | \"Triangle\", \"count\": integer }"@
}

/// A machine-readable description of the reply shape, suitable for embedding
/// into a prompt. Pure and deterministic: always exactly [`schema_text`].
pub fn schema_description() -> (r: String)
    ensures
        r@ == schema_text(),
{
    String::from_str(
        "{ \"valid\": boolean, \"error\": string, \"shape\": \"None\" | \"Circle\" | \"Square\" | \"Triangle\", \"count\": integer }",
    )
}

} // verus!
