//! What can go wrong between two peers.
use vstd::prelude::*;

verus! {

/// `snow::Error`, carried through unread.
#[verifier::external_type_specification]
#[verifier::external_body]
pub struct ExNoiseError(snow::Error);

/// `std::io::Error`, carried through unread.
#[verifier::external_type_specification]
#[verifier::external_body]
pub struct ExIoError(std::io::Error);

#[derive(Debug)]
pub enum NetworkError {
    /// The address leads back to this node.
    SelfConnectAttempt,
    /// A connection to the peer is being set up already.
    PeerAlreadyConnecting,
    /// The peer is connected already.
    PeerAlreadyConnected,
    /// What the peer sent is no valid part of the handshake.
    InvalidHandshake,
    /// This side of the Noise session failed.
    Noise(snow::Error),
    /// The connection itself failed.
    Io(std::io::Error),
}

} // verus!
