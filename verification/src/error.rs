//! Error taxonomy of the commitment scheme and the polynomial layer.

use vstd::prelude::*;

verus! {

/// Errors of verification proper: a proof of the wrong shape, or one whose
/// values fail a soundness check.
#[derive(Debug, Clone, Copy, PartialEq, Eq, Structural)]
pub enum VerificationError {
    /// The number of opening proofs does not match the test-query count.
    NumberOfOpeningProofs { expected: usize },
    /// An opened column has the wrong length.
    OpenedColumnSize { col_index: usize, poly_index: usize, expected: usize, actual: usize },
    /// The mixed partial evaluation has the wrong number of variables.
    PartialEvaluationSize,
    /// The mixed partial evaluation does not match the claimed values.
    IncorrectEvaluation,
    /// An opened column is inconsistent with the re-encoded partial evaluation.
    IncorrectPartialEvaluation,
    /// A Merkle opening failed to authenticate against the commitment.
    MerklePath,
}

/// Errors surfaced by construction, commitment and proving, with the
/// verification errors embedded.
#[derive(Debug, Clone, Copy, PartialEq, Eq, Structural)]
pub enum Error {
    CodeLengthPowerOfTwoRequired,
    ExtensionDegreePowerOfTwoRequired,
    PackingWidthMustDivideNumberOfRows,
    PackingWidthMustDivideCodeDimension,
    IncorrectPolynomialSize { expected: usize },
    UnalignedMessage,
    EncodeError,
    VectorCommit,
    NumBatchedMismatchError,
    ParameterError,
    /// A query vector has the wrong length.
    IncorrectQuerySize { expected: usize },
    /// An evaluation vector length is not a power of two.
    PowerOfTwoLengthRequired,
    /// A composite polynomial was built over mismatched multilinears.
    MultilinearCompositeValidation,
    /// The field of the code is too small for the requested dimension.
    CodeFieldTooSmall,
    Verification(VerificationError),
}

} // verus!
