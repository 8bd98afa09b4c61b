use vstd::prelude::*;

verus! {

/// What an ingest step asks of the notification loop when it fails on purpose.
#[derive(Debug, Clone, Copy, PartialEq, Eq, Structural)]
pub enum PubsubAction {
    /// Acknowledge the message and drop it.
    IgnoreAndAck,
}

/// The kinds of failure that callers of the catalog must tell apart.
#[derive(Debug, Clone)]
pub enum Error {
    Generic(String),
    /// A record was not found, a uniqueness rule was broken, or the store failed.
    Sql(String),
    /// Client or event data that cannot be used (bad email domain, the reserved name, an empty
    /// path).
    InputValidation(String),
    DBConversion(String),
    Utf8(String),
    /// Credentials were refused.
    Auth(String),
    /// A downstream HTTP service failed or answered with an unexpected status.
    Http(String),
    Pool(String),
    /// A decision of the ingest loop.
    Pubsub(PubsubAction),
}

} // verus!
