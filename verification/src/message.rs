//! The messages that peer maintenance sends, and the version that a handshake carries.
use crate::address::SocketAddr;
use vstd::prelude::*;

verus! {

/// Where a message goes.
#[derive(Clone, Copy, Debug, PartialEq, Eq, Structural)]
pub enum Direction {
    Outbound(SocketAddr),
}

/// What a message says.
#[derive(Debug)]
pub enum Payload {
    /// A request for the addresses of further peers.
    GetPeers,
    /// A probe that carries the block height of the sender.
    Ping(u32),
    /// The addresses of the peers of the sender.
    Peers(Vec<SocketAddr>),
}

#[derive(Debug)]
pub struct Message {
    pub direction: Direction,
    pub payload: Payload,
}

impl Message {
    pub fn new(direction: Direction, payload: Payload) -> (r: Self)
        ensures
            r.direction == direction,
            r.payload == payload,
    {
        Message { direction, payload }
    }
}

/// The protocol version of a node and the port on which it listens.
#[derive(Clone, Copy, Debug, PartialEq, Eq, Structural)]
pub struct Version {
    pub version: u64,
    pub listening_port: u16,
}

/// The four bytes of a 32-bit word, the lowest first.
pub open spec fn word_bytes(word: int) -> Seq<u8> {
    seq![
        (word % 0x100) as u8,
        (word / 0x100 % 0x100) as u8,
        (word / 0x1_0000 % 0x100) as u8,
        (word / 0x100_0000 % 0x100) as u8,
    ]
}

proof fn lemma_word_of_bytes(b0: u8, b1: u8, b2: u8, b3: u8)
    ensures
        word_bytes(b0 + b1 * 0x100 + b2 * 0x1_0000 + b3 * 0x100_0000) == seq![b0, b1, b2, b3],
{
    let word = b0 + b1 * 0x100 + b2 * 0x1_0000 + b3 * 0x100_0000;
    assert(word % 0x100 == b0);
    assert(word / 0x100 == b1 + b2 * 0x100 + b3 * 0x1_0000);
    assert(word / 0x1_0000 == b2 + b3 * 0x100);
    assert(word / 0x100_0000 == b3);
    assert(word_bytes(word) =~= seq![b0, b1, b2, b3]);
}

proof fn lemma_word_bytes_injective(a: int, b: int)
    requires
        0 <= a < 0x1_0000_0000,
        0 <= b < 0x1_0000_0000,
        word_bytes(a) == word_bytes(b),
    ensures
        a == b,
{
    let x = word_bytes(a);
    let y = word_bytes(b);
    assert(x[0] == y[0] && x[1] == y[1] && x[2] == y[2] && x[3] == y[3]);
    lemma_word_digits(a);
    lemma_word_digits(b);
}

pub(crate) proof fn lemma_word_digits(word: int)
    requires
        0 <= word < 0x1_0000_0000,
    ensures
        word == word_bytes(word)[0] + word_bytes(word)[1] * 0x100 + word_bytes(word)[2] * 0x1_0000
            + word_bytes(word)[3] * 0x100_0000,
{
}

impl Version {
    /// The number of bytes that a version takes.
    pub open spec fn encoded_len() -> nat {
        10
    }

    /// Eight bytes of version and two of port, each with the lowest byte first.
    pub open spec fn encoded(self) -> Seq<u8> {
        word_bytes(self.version as int % 0x1_0000_0000) + word_bytes(self.version as int / 0x1_0000_0000) + seq![
            (self.listening_port % 0x100) as u8,
            (self.listening_port / 0x100) as u8,
        ]
    }

    pub fn new(version: u64, listening_port: u16) -> (r: Self)
        ensures
            r.version == version,
            r.listening_port == listening_port,
    {
        Version { version, listening_port }
    }

    pub fn serialize(&self) -> (r: Vec<u8>)
        ensures
            r@ == self.encoded(),
    {
        let low: u64 = self.version % 0x1_0000_0000;
        let high: u64 = self.version / 0x1_0000_0000;
        let bytes: Vec<u8> = vec![
            (low % 0x100) as u8,
            (low / 0x100 % 0x100) as u8,
            (low / 0x1_0000 % 0x100) as u8,
            (low / 0x100_0000 % 0x100) as u8,
            (high % 0x100) as u8,
            (high / 0x100 % 0x100) as u8,
            (high / 0x1_0000 % 0x100) as u8,
            (high / 0x100_0000 % 0x100) as u8,
            (self.listening_port % 0x100) as u8,
            (self.listening_port / 0x100) as u8,
        ];
        assert(bytes@ =~= self.encoded());
        bytes
    }

    /// The version that the bytes spell, if they spell one.
    pub fn deserialize(bytes: &[u8]) -> (r: Option<Version>)
        ensures
            r is Some <==> bytes@.len() == Self::encoded_len(),
            r matches Some(version) ==> version.encoded() == bytes@,
    {
        if bytes.len() != 10 {
            return None;
        }
        let low: u64 = bytes[0] as u64 + bytes[1] as u64 * 0x100 + bytes[2] as u64 * 0x1_0000
            + bytes[3] as u64 * 0x100_0000;
        let high: u64 = bytes[4] as u64 + bytes[5] as u64 * 0x100 + bytes[6] as u64 * 0x1_0000
            + bytes[7] as u64 * 0x100_0000;
        let version: u64 = low + high * 0x1_0000_0000;
        let listening_port: u16 = bytes[8] as u16 + bytes[9] as u16 * 0x100;
        let decoded = Version { version, listening_port };
        proof {
            lemma_word_of_bytes(bytes@[0], bytes@[1], bytes@[2], bytes@[3]);
            lemma_word_of_bytes(bytes@[4], bytes@[5], bytes@[6], bytes@[7]);
            assert(version % 0x1_0000_0000 == low);
            assert(version / 0x1_0000_0000 == high);
            assert(decoded.encoded() =~= bytes@);
        }
        Some(decoded)
    }

    /// No two versions have the same bytes.
    pub(crate) proof fn lemma_encoded_injective(self, other: Version)
        requires
            self.encoded() == other.encoded(),
        ensures
            self == other,
    {
        let a = self.encoded();
        let b = other.encoded();
        assert(word_bytes(self.version as int % 0x1_0000_0000) =~= a.subrange(0, 4));
        assert(word_bytes(other.version as int % 0x1_0000_0000) =~= b.subrange(0, 4));
        assert(word_bytes(self.version as int / 0x1_0000_0000) =~= a.subrange(4, 8));
        assert(word_bytes(other.version as int / 0x1_0000_0000) =~= b.subrange(4, 8));
        lemma_word_bytes_injective(
            self.version as int % 0x1_0000_0000,
            other.version as int % 0x1_0000_0000,
        );
        lemma_word_bytes_injective(
            self.version as int / 0x1_0000_0000,
            other.version as int / 0x1_0000_0000,
        );
        assert(a[8] == self.listening_port % 0x100 && a[9] == self.listening_port / 0x100);
        assert(b[8] == other.listening_port % 0x100 && b[9] == other.listening_port / 0x100);
    }
}

} // verus!
