//! The error taxonomy of the client core. Transport failures are fatal to
//! the operation that met them; decode failures are fatal to the triggering
//! operation; a bad user formula is surfaced with its channel and expression,
//! never swallowed into a default color.

use vstd::prelude::*;

verus! {

/// Which color channel a formula belongs to.
#[derive(Clone, Copy, PartialEq, Eq, Structural, Debug)]
pub enum FormulaChannel {
    Red,
    Green,
    Blue,
    Alpha,
}

#[derive(Clone, Debug)]
pub enum PxError {
    /// A `PX` line whose token count, coordinates or hex payload is wrong.
    MalformedPixelRecord,
    /// A `SIZE` response whose dimension tokens are missing or not numbers.
    MalformedSizeResponse,
    /// A user-supplied channel formula failed to parse or evaluate, or did
    /// not yield an integer; carries the channel, the offending expression
    /// and the evaluator's message.
    FormulaEvaluation { channel: FormulaChannel, expr: String, message: String },
    /// A transport-level failure, raised by the unverified session layer.
    Connection { message: String },
}

} // verus!
