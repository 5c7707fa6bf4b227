//! A verifier for hash-chained notes.
//!
//! Every note carries a tag naming the state of the log it was written
//! against: the identifier of the previous note, the root digest of the
//! accumulator that holds the log, and the position of the previous note.
//! [`Mmr`] keeps the log's state and decides, for each note, whether it
//! extends the log; the accumulator itself and the relay connections live
//! with the caller, who reports back what they did.

pub mod chain;
pub mod client;
pub mod codec;
pub mod error;
pub mod event;
pub mod hash;
pub mod mmr;
pub mod tag;

pub use crate::error::Error;
pub use crate::event::Event;
pub use crate::hash::EventId;
pub use crate::mmr::Mmr;
pub use crate::tag::MmrTag;
