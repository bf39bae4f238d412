//! Peer maintenance for a node of a peer-to-peer network.
//!
//! A [`node::Node`] keeps a book of the peers that it knows, sorted by whether a connection to them
//! is being made, has been made or is gone, and measures how each connected peer behaves. From time
//! to time it goes through a round ([`update::UpdateRound`]) that connects to further peers when
//! there are too few, lets go of the most recent ones when there are too many, and pings the rest.
//! A connection is opened by a Noise handshake ([`handshake`]).
//!
//! Nothing here reads from or writes to a socket. A function that would have to do so hands back
//! what is to be done, and takes what came of it.
pub mod address;
pub mod address_map;
pub mod calls;
pub mod clock;
pub mod error;
pub mod handshake;
pub mod laws;
pub mod message;
pub mod node;
pub mod noise;
pub mod peer_book;
pub mod round_calls;
pub mod update;
