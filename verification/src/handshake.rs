//! The handshake by which a node opens a connection.
//!
//! Three messages go back and forth: the node sends an ephemeral key, the peer answers with its
//! keys and its version, and the node closes with its own. On the wire each message follows one
//! byte that gives its length.
use crate::error::NetworkError;
use crate::message::Version;
use crate::noise::{
    build_initiator, generate_static_key, into_transport_mode, message_written, messages_done,
    payload_read, read_message, session_after_read, session_after_write, session_ephemeral_key,
    session_psk, session_static_key, transport_of, write_message, FIRST_OVERHEAD,
    HANDSHAKE_PATTERN, NOISE_BUF_LEN, PSK_LEN, PSK_LOCATION, PUBLIC_KEY_LEN, SECOND_OVERHEAD,
    STATIC_KEY_LEN, THIRD_OVERHEAD,
};
use vstd::prelude::*;
use vstd::slice::slice_subrange;

verus! {

/// The version of the protocol that this node speaks.
pub const PROTOCOL_VERSION: u64 = 1;

/// A message as it goes over the wire: the low byte of its length, then the message.
pub open spec fn framed(message: Seq<u8>) -> Seq<u8> {
    seq![(message.len() % 0x100) as u8] + message
}

/// What a node says of itself in a handshake.
pub open spec fn own_version(listening_port: u16) -> Version {
    Version { version: PROTOCOL_VERSION, listening_port }
}

/// The bytes of what a node says of itself in a handshake.
pub fn own_version_payload(listening_port: u16) -> (r: Vec<u8>)
    ensures
        r@ == own_version(listening_port).encoded(),
        r@ == (Version { version: 1, listening_port }).encoded(),
{
    Version::new(PROTOCOL_VERSION, listening_port).serialize()
}

/// Frames the message that was written to the front of the buffer; a failure to write one is a
/// failure of the Noise session.
pub fn frame_message(written: Result<usize, snow::Error>, buffer: &Vec<u8>) -> (r: Result<
    Vec<u8>,
    NetworkError,
>)
    requires
        written matches Ok(len) ==> len <= buffer@.len(),
    ensures
        written matches Ok(len) ==> r matches Ok(bytes) && bytes@ == framed(
            buffer@.take(len as int),
        ),
        written matches Err(error) ==> r == Err::<Vec<u8>, _>(NetworkError::Noise(error)),
{
    match written {
        Ok(len) => {
            let mut bytes: Vec<u8> = Vec::new();
            bytes.push((len % 0x100) as u8);
            bytes.extend_from_slice(slice_subrange(buffer.as_slice(), 0, len));
            assert(bytes@ =~= framed(buffer@.take(len as int)));
            Ok(bytes)
        },
        Err(error) => Err(NetworkError::Noise(error)),
    }
}

/// The version in the payload that was read to the front of the buffer. A message that could not
/// be read, or whose payload is no version, makes the handshake invalid.
pub fn peer_version(read: Result<usize, snow::Error>, buffer: &Vec<u8>) -> (r: Result<
    Version,
    NetworkError,
>)
    requires
        read matches Ok(len) ==> len <= buffer@.len(),
    ensures
        r is Ok <==> (read matches Ok(len) && len == Version::encoded_len()),
        r matches Ok(version) ==> version.encoded() == buffer@.take(read->Ok_0 as int),
        r is Err ==> r == Err::<Version, _>(NetworkError::InvalidHandshake),
{
    match read {
        Ok(len) => match Version::deserialize(slice_subrange(buffer.as_slice(), 0, len)) {
            Some(version) => {
                assert(version.encoded() =~= buffer@.take(len as int));
                Ok(version)
            },
            None => Err(NetworkError::InvalidHandshake),
        },
        Err(_) => Err(NetworkError::InvalidHandshake),
    }
}

/// The length of the only reply that can carry a version.
pub open spec fn reply_message_len() -> nat {
    Version::encoded_len() + SECOND_OVERHEAD as nat
}

/// A handshake whose first message is out and whose second is awaited.
pub struct AwaitingReply {
    session: snow::HandshakeState,
}

/// A handshake whose last message is ready to go out.
pub struct Replied {
    session: snow::HandshakeState,
}

impl AwaitingReply {
    #[verifier::type_invariant]
    spec fn one_message_done(self) -> bool {
        messages_done(self.session) == Some(1nat)
    }

    /// The private key of this node.
    pub closed spec fn static_key(self) -> Seq<u8> {
        session_static_key(self.session)
    }

    /// The key that both sides hold beforehand.
    pub closed spec fn psk(self) -> Seq<u8> {
        session_psk(self.session)
    }

    /// The ephemeral public key of this node.
    pub closed spec fn ephemeral_key(self) -> Seq<u8> {
        session_ephemeral_key(self.session)
    }

    /// The payload of the reply, if it is accepted.
    pub closed spec fn payload_in(self, message: Seq<u8>) -> Option<Seq<u8>> {
        payload_read(self.session, message)
    }

    /// The reply is accepted and its payload is a version.
    pub open spec fn finds_version_in(self, message: Seq<u8>) -> bool {
        self.payload_in(message) is Some && self.payload_in(message)->0.len()
            == Version::encoded_len()
    }

    /// The message that answers the reply with the payload, if one can be written.
    pub closed spec fn answer(self, message: Seq<u8>, payload: Seq<u8>) -> Option<Seq<u8>> {
        message_written(session_after_read(self.session, message), payload)
    }

    /// The session that the handshake leads to once the reply is answered with the payload.
    pub closed spec fn transport(self, message: Seq<u8>, payload: Seq<u8>) -> snow::TransportState {
        transport_of(session_after_write(session_after_read(self.session, message), payload))
    }

    /// The bytes begin the handshake: they frame its first message, which has no payload and starts
    /// with the ephemeral key.
    pub open spec fn is_begun_by(self, bytes: Seq<u8>) -> bool {
        let message = crate::noise::first_message(self.ephemeral_key(), Seq::empty());
        &&& bytes == framed(message)
        &&& message.len() == FIRST_OVERHEAD
        &&& message.take(PUBLIC_KEY_LEN as int) == self.ephemeral_key()
    }

    /// Begins a handshake with the given private key and the key that both sides hold beforehand.
    /// Returns the handshake and the bytes to send. A preshared key of the wrong length is refused.
    pub fn start_with_key(static_key: &[u8], psk: &[u8]) -> (r: Result<
        (AwaitingReply, Vec<u8>),
        NetworkError,
    >)
        requires
            static_key@.len() == STATIC_KEY_LEN,
        ensures
            r is Ok <==> psk@.len() == PSK_LEN,
            r matches Err(error) ==> error is Noise,
            r matches Ok(started) ==> {
                &&& started.0.static_key() == static_key@
                &&& started.0.psk() == psk@
                &&& started.0.is_begun_by(started.1@)
            },
    {
        let mut session = match build_initiator(
            HANDSHAKE_PATTERN,
            static_key,
            PSK_LOCATION,
            psk,
        ) {
            Ok(session) => session,
            Err(error) => return Err(NetworkError::Noise(error)),
        };
        let mut buffer: Vec<u8> = vec![0u8; NOISE_BUF_LEN];
        let payload: Vec<u8> = Vec::new();
        let written = write_message(&mut session, payload.as_slice(), &mut buffer);
        match frame_message(written, &buffer) {
            Ok(bytes) => {
                assert(buffer@.take(FIRST_OVERHEAD as int).take(PUBLIC_KEY_LEN as int)
                    =~= buffer@.take(PUBLIC_KEY_LEN as int));
                Ok((AwaitingReply { session }, bytes))
            },
            Err(error) => Err(error),
        }
    }

    /// Begins a handshake with a private key drawn at random and the key that both sides hold
    /// beforehand. Returns the handshake and the bytes to send. A preshared key of the wrong length
    /// is refused.
    pub fn start(psk: &[u8]) -> (r: Result<(AwaitingReply, Vec<u8>), NetworkError>)
        ensures
            r is Ok <==> psk@.len() == PSK_LEN,
            r matches Err(error) ==> error is Noise,
            r matches Ok(started) ==> {
                &&& started.0.static_key().len() == STATIC_KEY_LEN
                &&& crate::noise::is_clamped(started.0.static_key())
                &&& started.0.psk() == psk@
                &&& started.0.is_begun_by(started.1@)
            },
    {
        match generate_static_key(HANDSHAKE_PATTERN) {
            Ok(static_key) => AwaitingReply::start_with_key(static_key.as_slice(), psk),
            Err(error) => Err(NetworkError::Noise(error)),
        }
    }

    /// How many bytes of reply follow the byte that gives its length.
    pub fn reply_len(length: u8) -> (r: usize)
        ensures
            r == length,
    {
        length as usize
    }

    /// Takes the reply of the peer, and answers it with the version of this node and the port on
    /// which it listens. Returns the handshake and the bytes to send.
    ///
    /// A reply that is not accepted, or that carries no version, makes the handshake invalid. One
    /// that cannot be answered is a failure of the Noise session.
    pub fn reply(self, message: &[u8], listening_port: u16) -> (r: Result<
        (Replied, Vec<u8>),
        NetworkError,
    >)
        ensures
            message@.len() != reply_message_len() ==> r == Err::<(Replied, Vec<u8>), _>(
                NetworkError::InvalidHandshake,
            ),
            r matches Err(error) ==> error is InvalidHandshake || error is Noise,
            (r matches Err(NetworkError::InvalidHandshake)) <==> !self.finds_version_in(message@),
            r is Ok <==> self.finds_version_in(message@) && self.answer(
                message@,
                own_version(listening_port).encoded(),
            ) is Some,
            r matches Ok(replied) ==> {
                &&& replied.0.psk() == self.psk()
                &&& replied.0.static_key() == self.static_key()
                &&& replied.0.ephemeral_key() == self.ephemeral_key()
                &&& replied.0.transport() == self.transport(
                    message@,
                    own_version(listening_port).encoded(),
                )
                &&& replied.1@ == framed(
                    self.answer(message@, own_version(listening_port).encoded())->0,
                )
                &&& replied.1@ == framed(
                    self.answer(message@, (Version { version: 1, listening_port }).encoded())->0,
                )
                &&& replied.1@.len() == 1 + own_version(listening_port).encoded().len()
                    + THIRD_OVERHEAD
            },
    {
        proof {
            use_type_invariant(&self);
        }
        let mut session = self.session;
        let mut buffer: Vec<u8> = vec![0u8; NOISE_BUF_LEN];
        let read = read_message(&mut session, message, &mut buffer);
        match peer_version(read, &buffer) {
            Ok(_peer_version) => {},
            Err(error) => return Err(error),
        }
        let payload = own_version_payload(listening_port);
        let written = write_message(&mut session, payload.as_slice(), &mut buffer);
        match frame_message(written, &buffer) {
            Ok(bytes) => Ok((Replied { session }, bytes)),
            Err(error) => Err(error),
        }
    }
}

impl Replied {
    #[verifier::type_invariant]
    spec fn all_messages_done(self) -> bool {
        messages_done(self.session) == Some(3nat)
    }

    /// The private key of this node.
    pub closed spec fn static_key(self) -> Seq<u8> {
        session_static_key(self.session)
    }

    /// The key that both sides hold beforehand.
    pub closed spec fn psk(self) -> Seq<u8> {
        session_psk(self.session)
    }

    /// The ephemeral public key of this node.
    pub closed spec fn ephemeral_key(self) -> Seq<u8> {
        session_ephemeral_key(self.session)
    }

    /// The session that the handshake leads to.
    pub closed spec fn transport(self) -> snow::TransportState {
        transport_of(self.session)
    }

    /// Turns a handshake whose last message is out into the session that it leads to.
    pub fn finish(self) -> (r: Result<snow::TransportState, NetworkError>)
        ensures
            r == Ok::<snow::TransportState, NetworkError>(self.transport()),
    {
        proof {
            use_type_invariant(&self);
        }
        match into_transport_mode(self.session) {
            Ok(session) => Ok(session),
            Err(error) => Err(NetworkError::Noise(error)),
        }
    }
}

/// The handshake is one side of the Noise session: it has the keys of the session, finds in a reply
/// what the session finds, answers it with the message that the session writes for the payload, and
/// leads to what the session turns into by then.
pub open spec fn goes_by_session(handshake: AwaitingReply, session: snow::HandshakeState) -> bool {
    &&& handshake.static_key() == session_static_key(session)
    &&& handshake.psk() == session_psk(session)
    &&& handshake.ephemeral_key() == session_ephemeral_key(session)
    &&& forall|message: Seq<u8>| #[trigger]
        handshake.payload_in(message) == payload_read(session, message)
    &&& forall|message: Seq<u8>, payload: Seq<u8>| #[trigger]
        handshake.answer(message, payload) == message_written(
            session_after_read(session, message),
            payload,
        )
    &&& forall|message: Seq<u8>, payload: Seq<u8>| #[trigger]
        handshake.transport(message, payload) == transport_of(
            session_after_write(session_after_read(session, message), payload),
        )
}

/// Every handshake goes by a Noise session.
pub proof fn law_handshake_goes_by_a_noise_session(handshake: AwaitingReply)
    ensures
        exists|session: snow::HandshakeState| #[trigger] goes_by_session(handshake, session),
{
    assert(goes_by_session(handshake, handshake.session));
}

/// What a handshake whose last message is ready leads to is what its Noise session turns into.
pub proof fn law_replied_handshake_goes_by_a_noise_session(handshake: Replied)
    ensures
        exists|session: snow::HandshakeState|
            {
                &&& handshake.static_key() == session_static_key(session)
                &&& handshake.psk() == session_psk(session)
                &&& handshake.ephemeral_key() == session_ephemeral_key(session)
                &&& handshake.transport() == #[trigger] transport_of(session)
            },
{
    assert(handshake.transport() == transport_of(handshake.session));
}

} // verus!
