use vstd::prelude::*;

verus! {

/// A tracker error: it tells a client what was wrong with its request.
#[derive(Debug, Clone, Copy, PartialEq, Eq)]
pub enum Error {
    /// The connection id of the request is not valid for its sender.
    AccessDenied,
    /// The request string of an announce is not `/announce`.
    InvalidAnnounceUrl,
    /// The info hash is missing or not 20 bytes long.
    InvalidInfoHash,
    /// The `ip` parameter is not a textual IPv4 or IPv6 address.
    InvalidIpAddress,
    /// The peer id is missing or not 20 bytes long.
    InvalidPeerId,
    /// The port is missing, zero, malformed or a system port.
    InvalidPort,
    /// A parameter is repeated, malformed or too long.
    InvalidParams,
    /// The tracker failed for a reason of its own.
    Internal,
    /// The address of the peer changed and no matching key proves its identity.
    IpAddressChanged,
    /// The torrent is not tracked.
    TorrentNotFound,
    /// An error raised by a tracker extension, with a printable message.
    Custom(&'static str),
}

impl Error {
    /// The human readable text of each error.
    pub open spec fn spec_message(self) -> Seq<char> {
        match self {
            Error::AccessDenied => "access denied"@,
            Error::InvalidAnnounceUrl => "invalid announce URL"@,
            Error::InvalidInfoHash => "invalid info hash"@,
            Error::InvalidIpAddress => "invalid IP address"@,
            Error::InvalidParams => "invalid parameters"@,
            Error::InvalidPeerId => "invalid peer id"@,
            Error::InvalidPort => "invalid port"@,
            Error::Internal => "internal server error"@,
            Error::IpAddressChanged => "IP address changed"@,
            Error::TorrentNotFound => "torrent not found"@,
            Error::Custom(message) => message@,
        }
    }

    /// The bytes of the message, as it travels in an error reply.
    pub open spec fn spec_message_bytes(self) -> Seq<u8> {
        vstd::utf8::encode_utf8(self.spec_message())
    }

    /// The bytes of the message.
    pub fn message_bytes(&self) -> (r: &'static [u8])
        ensures
            r@ == self.spec_message_bytes(),
    {
        self.message().as_bytes()
    }

    /// Returns the human readable message of this error.
    pub fn message(&self) -> (r: &'static str)
        ensures
            r@ == self.spec_message(),
    {
        match self {
            Error::AccessDenied => "access denied",
            Error::InvalidAnnounceUrl => "invalid announce URL",
            Error::InvalidInfoHash => "invalid info hash",
            Error::InvalidIpAddress => "invalid IP address",
            Error::InvalidParams => "invalid parameters",
            Error::InvalidPeerId => "invalid peer id",
            Error::InvalidPort => "invalid port",
            Error::Internal => "internal server error",
            Error::IpAddressChanged => "IP address changed",
            Error::TorrentNotFound => "torrent not found",
            Error::Custom(message) => message,
        }
    }
}

} // verus!
