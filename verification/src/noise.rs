//! The Noise sessions of `snow`, whose own code stays unread here.
use vstd::prelude::*;

verus! {

/// The pattern of the handshake: each side sends its static key, and the third message mixes in a
/// key that both sides hold beforehand.
pub const HANDSHAKE_PATTERN: &'static str = "Noise_XXpsk3_25519_ChaChaPoly_SHA256";

/// The place of the preshared key in the pattern.
pub const PSK_LOCATION: u8 = 3;

/// The length of a preshared key.
pub const PSK_LEN: usize = 32;

/// The length of a private key.
pub const STATIC_KEY_LEN: usize = 32;

/// The length of a public key.
pub const PUBLIC_KEY_LEN: usize = 32;

/// The length of the longest Noise message.
pub const NOISE_BUF_LEN: usize = 65535;

/// What the first message adds to its payload: an ephemeral key and a tag.
pub const FIRST_OVERHEAD: usize = 48;

/// What the second message adds to its payload: an ephemeral key, a static key with its tag, and a
/// tag.
pub const SECOND_OVERHEAD: usize = 96;

/// What the third message adds to its payload: a static key with its tag, and a tag.
pub const THIRD_OVERHEAD: usize = 64;

/// `snow::HandshakeState`: one side of a handshake under way. It holds ephemeral keys that were
/// drawn at random, and nothing is known of what is inside but for the names below.
#[verifier::external_type_specification]
#[verifier::external_body]
pub struct ExHandshakeState(snow::HandshakeState);

/// `snow::TransportState`: one side of a session whose handshake is over, carried through unread.
#[verifier::external_type_specification]
#[verifier::external_body]
pub struct ExTransportState(snow::TransportState);

/// How many messages of the handshake are done, if the session is the side that speaks first in
/// the pattern of this crate, with both of its keys in place and no prologue.
pub uninterp spec fn messages_done(session: snow::HandshakeState) -> Option<nat>;

/// The private key that the session was built with.
pub uninterp spec fn session_static_key(session: snow::HandshakeState) -> Seq<u8>;

/// The preshared key that the session was built with.
pub uninterp spec fn session_psk(session: snow::HandshakeState) -> Seq<u8>;

/// The ephemeral public key of the session, once it has drawn one.
pub uninterp spec fn session_ephemeral_key(session: snow::HandshakeState) -> Seq<u8>;

/// The session that a finished handshake turns into.
pub uninterp spec fn transport_of(session: snow::HandshakeState) -> snow::TransportState;

/// The first message of a handshake for the payload, once the ephemeral key has been drawn. No
/// other key goes into it.
pub uninterp spec fn first_message(ephemeral_key: Seq<u8>, payload: Seq<u8>) -> Seq<u8>;

/// The bits of a private key that are the same in every one that is drawn: read with the lowest
/// byte first, the lowest three are clear, as is the highest, and the one below the highest is set.
pub open spec fn is_clamped(key: Seq<u8>) -> bool {
    key[0] % 8 == 0 && 64 <= key[31] < 128
}

/// The third message that the session writes for the payload, if it can write one. By then every
/// key has been drawn.
pub uninterp spec fn message_written(
    session: snow::HandshakeState,
    payload: Seq<u8>,
) -> Option<Seq<u8>>;

/// The session once it has written its third message.
pub uninterp spec fn session_after_write(
    session: snow::HandshakeState,
    payload: Seq<u8>,
) -> snow::HandshakeState;

/// The payload that the session finds in the message, if it accepts it.
pub uninterp spec fn payload_read(
    session: snow::HandshakeState,
    message: Seq<u8>,
) -> Option<Seq<u8>>;

/// The session once it has accepted the message.
pub uninterp spec fn session_after_read(
    session: snow::HandshakeState,
    message: Seq<u8>,
) -> snow::HandshakeState;

/// The two sessions were built with the same keys.
pub open spec fn same_keys(a: snow::HandshakeState, b: snow::HandshakeState) -> bool {
    session_static_key(a) == session_static_key(b) && session_psk(a) == session_psk(b)
}

/// `snow::Builder::generate_keypair`, with the primitives of libsodium: the private half of a
/// pair of keys drawn at random. For the pattern of this crate libsodium has every primitive, so
/// that a pair comes back, and the private key is 32 bytes long, with the bits set and clear that
/// every such key has. Which key it is rests on chance.
#[verifier::external_body]
pub(crate) fn generate_static_key(pattern: &str) -> (r: Result<Vec<u8>, snow::Error>)
    requires
        pattern@ == HANDSHAKE_PATTERN@,
    ensures
        r is Ok,
        r->Ok_0@.len() == STATIC_KEY_LEN,
        is_clamped(r->Ok_0@),
{
    let resolver = Box::new(snow::resolvers::SodiumResolver);
    let builder = snow::Builder::with_resolver(pattern.parse()?, resolver);
    Ok(builder.generate_keypair()?.private)
}

/// `snow::Builder::build_initiator`, with the primitives of libsodium: the side of a handshake
/// that speaks first, with the two keys that it was given and no message done. For the pattern of
/// this crate the only thing that is checked is the length of the preshared key.
#[verifier::external_body]
pub(crate) fn build_initiator(
    pattern: &str,
    static_key: &[u8],
    psk_location: u8,
    psk: &[u8],
) -> (r: Result<snow::HandshakeState, snow::Error>)
    requires
        pattern@ == HANDSHAKE_PATTERN@,
        static_key@.len() == STATIC_KEY_LEN,
        psk_location == PSK_LOCATION,
    ensures
        r is Ok <==> psk@.len() == PSK_LEN,
        r is Ok ==> messages_done(r->Ok_0) == Some(0nat),
        r is Ok ==> session_static_key(r->Ok_0) == static_key@,
        r is Ok ==> session_psk(r->Ok_0) == psk@,
{
    let resolver = Box::new(snow::resolvers::SodiumResolver);
    snow::Builder::with_resolver(pattern.parse()?, resolver)
        .local_private_key(static_key)
        .psk(psk_location, psk)
        .build_initiator()
}

/// `snow::HandshakeState::write_message`: puts the next message of the handshake, with the given
/// payload, at the front of the buffer and returns its length.
///
/// The side that speaks first writes the first and the third message, and the lengths of the keys
/// and tags in them are fixed. The first is written unless it would be too long. It begins with an
/// ephemeral key that is drawn at random and that the session keeps; which key that is rests on
/// chance, and the rest of the message follows from that key and the payload. For the third nothing
/// is drawn: whether it is written, what it holds and what becomes of the session follow from the
/// session and the payload. A message that was written is done; one that was not leaves the
/// handshake where it was.
///
/// A buffer too short for a static key and its tag can make the call panic; one that holds any
/// Noise message cannot.
#[verifier::external_body]
pub(crate) fn write_message(
    session: &mut snow::HandshakeState,
    payload: &[u8],
    buffer: &mut Vec<u8>,
) -> (r: Result<usize, snow::Error>)
    requires
        old(buffer)@.len() >= NOISE_BUF_LEN,
    ensures
        final(buffer)@.len() == old(buffer)@.len(),
        same_keys(*final(session), *old(session)),
        messages_done(*old(session)) == Some(0nat) ==> (r is Ok <==> payload@.len()
            + FIRST_OVERHEAD <= NOISE_BUF_LEN),
        messages_done(*old(session)) == Some(0nat) && r is Ok ==> r->Ok_0 == payload@.len()
            + FIRST_OVERHEAD,
        messages_done(*old(session)) == Some(2nat) && r is Ok ==> r->Ok_0 == payload@.len()
            + THIRD_OVERHEAD,
        messages_done(*old(session)) == Some(1nat) ==> r is Err,
        messages_done(*old(session)) == Some(3nat) ==> r is Err,
        r is Ok ==> r->Ok_0 <= NOISE_BUF_LEN,
        r is Ok && messages_done(*old(session)) is Some ==> messages_done(*final(session)) == Some(
            messages_done(*old(session))->0 + 1,
        ),
        r is Err ==> messages_done(*final(session)) == messages_done(*old(session)),
        messages_done(*old(session)) == Some(0nat) && r is Ok ==> final(buffer)@.take(
            r->Ok_0 as int,
        ) == first_message(session_ephemeral_key(*final(session)), payload@),
        messages_done(*old(session)) == Some(0nat) && r is Ok ==> final(buffer)@.take(
            PUBLIC_KEY_LEN as int,
        ) == session_ephemeral_key(*final(session)),
        messages_done(*old(session)) == Some(2nat) ==> (r is Ok <==> message_written(
            *old(session),
            payload@,
        ) is Some),
        messages_done(*old(session)) == Some(2nat) && r is Ok ==> message_written(
            *old(session),
            payload@,
        ) == Some(final(buffer)@.take(r->Ok_0 as int)),
        messages_done(*old(session)) == Some(2nat) && r is Ok ==> *final(session)
            == session_after_write(*old(session), payload@),
        messages_done(*old(session)) == Some(2nat) ==> session_ephemeral_key(*final(session))
            == session_ephemeral_key(*old(session)),
{
    session.write_message(payload, buffer)
}

/// `snow::HandshakeState::read_message`: checks the next message of the other side and puts its
/// payload at the front of the buffer, whose length it returns.
///
/// The side that speaks first reads the second message, in which the lengths of the keys and tags
/// are fixed, so that one too short for them or longer than a Noise message is refused. Nothing is
/// drawn at random here: whether a message is accepted, what is found in it and what becomes of the
/// session follow from the session and the message, as long as the buffer has room for any payload.
/// A message that was accepted is done; one that was not leaves the handshake where it was.
#[verifier::external_body]
pub(crate) fn read_message(
    session: &mut snow::HandshakeState,
    message: &[u8],
    buffer: &mut Vec<u8>,
) -> (r: Result<usize, snow::Error>)
    ensures
        final(buffer)@.len() == old(buffer)@.len(),
        same_keys(*final(session), *old(session)),
        message@.len() > NOISE_BUF_LEN ==> r is Err,
        messages_done(*old(session)) == Some(1nat) && message@.len() < SECOND_OVERHEAD ==> r is Err,
        messages_done(*old(session)) == Some(1nat) && r is Ok ==> r->Ok_0 == message@.len()
            - SECOND_OVERHEAD,
        messages_done(*old(session)) is Some && messages_done(*old(session)) != Some(1nat)
            ==> r is Err,
        r is Ok ==> r->Ok_0 <= old(buffer)@.len(),
        r is Ok && messages_done(*old(session)) is Some ==> messages_done(*final(session)) == Some(
            messages_done(*old(session))->0 + 1,
        ),
        r is Err ==> messages_done(*final(session)) == messages_done(*old(session)),
        old(buffer)@.len() >= NOISE_BUF_LEN ==> (r is Ok <==> payload_read(
            *old(session),
            message@,
        ) is Some),
        r is Ok ==> payload_read(*old(session), message@) == Some(
            final(buffer)@.take(r->Ok_0 as int),
        ),
        r is Ok ==> *final(session) == session_after_read(*old(session), message@),
        session_ephemeral_key(*final(session)) == session_ephemeral_key(*old(session)),
{
    session.read_message(message, buffer)
}

/// `snow::HandshakeState::into_transport_mode`: the session that the handshake leads to, if all
/// three messages are done, and an error otherwise. What the session holds follows from the
/// handshake alone.
#[verifier::external_body]
pub(crate) fn into_transport_mode(session: snow::HandshakeState) -> (r: Result<
    snow::TransportState,
    snow::Error,
>)
    ensures
        messages_done(session) is Some ==> (r is Ok <==> messages_done(session) == Some(3nat)),
        r is Ok ==> r->Ok_0 == transport_of(session),
{
    session.into_transport_mode()
}

} // verus!
