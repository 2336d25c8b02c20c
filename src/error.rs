use vstd::prelude::*;

verus! {

/// The kinds of failure that the library distinguishes.
#[derive(Clone, Copy, Debug, PartialEq, Eq, Structural)]
pub enum ErrorKind {
    /// The transport failed; the next sync retries.
    NetworkFailure,
    /// The credentials were rejected.
    AuthFailure,
    /// An `If-Match` or `If-None-Match` precondition was rejected.
    PreconditionFailure,
    /// An iCal blob could not be interpreted.
    MalformedInput,
    /// A required iCal property is missing.
    MissingField,
    /// An expected element or header is missing from a reply.
    ProtocolViolation,
    /// A lookup for an expected item or calendar returned nothing.
    NotFound,
    /// An item or calendar already exists at that URL.
    Duplicate,
    /// A fault injected by a [`crate::mock_behaviour::MockBehaviour`].
    MockedFailure,
}

} // verus!
