//! The ways a run can fail.

use vstd::prelude::*;

verus! {

/// Why a run, or the work on one file, was given up.
#[derive(Debug, Clone, Copy, PartialEq, Eq, Structural)]
pub enum Error {
    /// No root directory was given.
    MissingDirectory,
    /// No signing key was given, neither in the environment nor as an
    /// argument.
    MissingSigningKey,
    /// A file could not be read.
    IoError,
    /// A file could not be parsed for the structural extractor.
    Syntax,
    /// The framed params block is not a JSON object with the required
    /// fields.
    ParamSerialization,
    /// The signing key or a query text is longer than the digest accepts.
    InputTooLong,
    /// The output file could not be created.
    SignatureFileCreation,
    /// The signature map could not be written as JSON.
    SignatureSerialization,
}

} // verus!
