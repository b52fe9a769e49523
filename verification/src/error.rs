use vstd::prelude::*;

verus! {

/// Errors surfaced by the engine.
#[derive(Debug, PartialEq, Eq, Clone)]
pub enum Error {
    /// Optimistic-concurrency violation on append; carries the raw diagnostic text.
    ExpectedVersion(String),
    /// A category stream name was required but the given name carries an identifier.
    StreamName,
    /// A record did not decode as the expected message type.
    MessageType,
    /// The stop flag's lock was poisoned; the stop itself still took effect.
    ConsumerError,
    /// The backing store refused the operation; carries its diagnostic.
    Store(String),
    /// A handler refused a record; carries the handler's diagnostic.
    Handler(String),
}

} // verus!
