use vstd::prelude::*;
use vstd::string::StringExecFns;

verus! {

/// Why a note was not admitted to the log.
#[derive(Clone, Copy, Debug, PartialEq, Eq, Structural)]
pub enum Error {
    /// The note carries no commitment tag.
    MissingCommitment,
    /// The note's commitment tag differs from the state of the log.
    CommitmentMismatch,
    /// The note's identifier is already in the log.
    DuplicateId,
    /// The note's signature does not verify.
    InvalidSignature,
    /// The accumulator failed its consistency check after an append.
    AccumulatorCorruption,
    /// A relay connection failed or delivered a frame that cannot be read.
    TransportFailure,
}

impl Error {
    /// The text that describes the error.
    pub open spec fn message_spec(self) -> Seq<char> {
        match self {
            Error::MissingCommitment => "Event doesn't contain MMR tag"@,
            Error::CommitmentMismatch => "MmrTag different than expected previous MmrTag"@,
            Error::DuplicateId => "EventId already present in MMR"@,
            Error::InvalidSignature => "Event signature doesn't verify"@,
            Error::AccumulatorCorruption => "MMR failed validation after append"@,
            Error::TransportFailure => "Relay connection failed"@,
        }
    }

    /// Describes the error in words, for a log or a user.
    pub fn message(&self) -> (text: String)
        ensures
            text@ == self.message_spec(),
    {
        match self {
            Error::MissingCommitment => String::from_str("Event doesn't contain MMR tag"),
            Error::CommitmentMismatch => String::from_str(
                "MmrTag different than expected previous MmrTag",
            ),
            Error::DuplicateId => String::from_str("EventId already present in MMR"),
            Error::InvalidSignature => String::from_str("Event signature doesn't verify"),
            Error::AccumulatorCorruption => String::from_str("MMR failed validation after append"),
            Error::TransportFailure => String::from_str("Relay connection failed"),
        }
    }

    /// True for the one error after which the log admits nothing more.
    pub open spec fn is_fatal_spec(self) -> bool {
        self == Error::AccumulatorCorruption
    }

    /// Tells whether the error ends the life of the verifier that raised it.
    /// Every other error only drops the note at hand.
    #[verifier::when_used_as_spec(is_fatal_spec)]
    pub fn is_fatal(self) -> (fatal: bool)
        ensures
            fatal == self.is_fatal_spec(),
    {
        match self {
            Error::AccumulatorCorruption => true,
            _ => false,
        }
    }
}

} // verus!
