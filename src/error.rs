//! Errors of the codec and of the resolver.
use vstd::prelude::*;

verus! {

/// Why bytes could not be read as DNS data.
#[derive(Debug, Clone, Copy, PartialEq, Eq, Structural)]
pub enum SimpleDnsError {
    /// Fewer bytes remain than the item needs.
    InsufficientData,
    /// The 12-byte header is not there.
    InvalidHeaderData,
    /// The sections do not match what the header declares.
    InvalidDnsPacket,
    /// A name that is not a valid domain name.
    InvalidServiceName,
}

/// Why a one-shot query failed.
#[derive(Debug, Clone, Copy, PartialEq, Eq, Structural)]
pub enum SimpleMdnsError {
    ErrorCreatingUDPSocket,
    ErrorSendingDNSPacket,
    ErrorReadingFromUDPSocket,
    DnsParsing(SimpleDnsError),
}

impl From<SimpleDnsError> for SimpleMdnsError {
    fn from(inner: SimpleDnsError) -> (r: SimpleMdnsError)
        ensures
            r == SimpleMdnsError::DnsParsing(inner),
    {
        SimpleMdnsError::DnsParsing(inner)
    }
}

impl vstd::std_specs::convert::FromSpecImpl<SimpleDnsError> for SimpleMdnsError {
    open spec fn obeys_from_spec() -> bool {
        true
    }

    open spec fn from_spec(inner: SimpleDnsError) -> SimpleMdnsError {
        SimpleMdnsError::DnsParsing(inner)
    }
}

} // verus!
