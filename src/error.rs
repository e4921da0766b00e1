use vstd::prelude::*;

verus! {

/// Which side of the proxy a TLS leg or a transport faces.
#[derive(Clone, Copy, Debug, PartialEq, Eq, Structural)]
pub enum Leg {
    Phone,
    HeadUnit,
}

/// A malformed multiplexed stream.
#[derive(Clone, Copy, Debug, PartialEq, Eq, Structural)]
pub enum FramingError {
    /// A frame header declared a payload above the configured maximum.
    PayloadTooLarge { channel: u8, length: u16 },
    /// A first fragment arrived while a message was still open on its channel.
    OverlappingMessage { channel: u8 },
    /// A continuation fragment arrived on a channel with no open message.
    OrphanFragment { channel: u8 },
    /// A message grew past the configured maximum while being reassembled.
    MessageTooLarge { channel: u8 },
}

/// Why a relay session ended, or why one of its steps failed.
#[derive(Clone, Copy, Debug, PartialEq, Eq, Structural)]
pub enum RelayError {
    /// The peer closed the transport, possibly in the middle of a frame.
    TransportClosed,
    Framing(FramingError),
    /// A handshake or record failure on the given TLS leg.
    Tls(Leg),
}

} // verus!
