use vstd::prelude::*;

verus! {

/// The error type of `serde_json`, carried by [`GliaError::CodecError`].
#[verifier::external_type_specification]
#[verifier::external_body]
pub struct ExJsonError(serde_json::Error);

/// Why a text is not a URL: the kinds of `url::ParseError`.
#[derive(Debug, Clone, Copy, PartialEq, Eq, Structural)]
pub enum UrlError {
    EmptyHost,
    IdnaError,
    InvalidPort,
    InvalidIpv4Address,
    InvalidIpv6Address,
    InvalidDomainCharacter,
    RelativeUrlWithoutBase,
    RelativeUrlWithCannotBeABaseBase,
    SetHostOnCannotBeABaseUrl,
    /// The URL would be longer than 4 GB.
    Overflow,
    /// A kind of error that the `url` crate may add in a later version.
    Other,
}

/// Everything that can go wrong between the client and the gateway.
#[derive(Debug)]
pub enum GliaError {
    /// The WebSocket connection failed or was closed.
    ConnectionError(String),
    /// A frame could not be serialized or deserialized.
    CodecError(serde_json::Error),
    /// The gateway refused to join the session channel.
    JoinRejected(String),
    /// The agent reported an error while running.
    ExecutionError(String),
    /// The channel or the agent did not answer in time.
    Timeout,
    /// The gateway URL is not a valid URL.
    UrlError(UrlError),
    /// The client has not joined its session channel.
    NotConnected,
}

} // verus!
