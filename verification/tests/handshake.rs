use peers::error::NetworkError;
use peers::handshake::{frame_message, own_version_payload, peer_version, AwaitingReply};
use peers::message::Version;
use peers::noise::HANDSHAKE_PATTERN;

const PSK: [u8; 32] = [7; 32];

/// The other side of the handshake.
fn responder(psk: &[u8]) -> snow::HandshakeState {
    let builder = snow::Builder::new(HANDSHAKE_PATTERN.parse().unwrap());
    let key = builder.generate_keypair().unwrap().private;
    builder.local_private_key(&key).psk(3, psk).build_responder().unwrap()
}

/// Takes the message out of its frame.
fn unframed(bytes: &[u8]) -> &[u8] {
    assert_eq!(bytes[0] as usize, bytes.len() - 1);
    assert_eq!(AwaitingReply::reply_len(bytes[0]), bytes.len() - 1);
    &bytes[1..]
}

/// Answers the first message with the given payload.
fn reply_to(other: &mut snow::HandshakeState, first: &[u8], payload: &[u8]) -> Vec<u8> {
    let mut buffer = vec![0u8; 65535];
    let len = other.read_message(first, &mut buffer).unwrap();
    assert_eq!(len, 0);
    let len = other.write_message(payload, &mut buffer).unwrap();
    buffer.truncate(len);
    buffer
}

#[test]
fn a_handshake_exchanges_versions_and_opens_a_session() {
    let mut other = responder(&PSK);
    let (handshake, first) = AwaitingReply::start(&PSK).unwrap();
    let first = unframed(&first);
    assert_eq!(first.len(), 48);

    let reply = reply_to(&mut other, first, &Version::new(1, 4131).serialize());
    assert_eq!(reply.len(), 106);
    let (handshake, last) = handshake.reply(&reply, 4130).unwrap();
    assert_eq!(last.len(), 75);
    assert_eq!(last[0], 74);

    let mut buffer = vec![0u8; 65535];
    let len = other.read_message(unframed(&last), &mut buffer).unwrap();
    assert_eq!(Version::deserialize(&buffer[..len]), Some(Version::new(1, 4130)));

    let mut session = handshake.finish().unwrap();
    let mut other = other.into_transport_mode().unwrap();
    let mut sealed = [0u8; 64];
    let len = session.write_message(b"hello", &mut sealed).unwrap();
    let mut opened = [0u8; 64];
    let len = other.read_message(&sealed[..len], &mut opened).unwrap();
    assert_eq!(&opened[..len], b"hello");
}

#[test]
fn two_handshakes_start_with_different_keys() {
    let (_, first) = AwaitingReply::start(&PSK).unwrap();
    let (_, second) = AwaitingReply::start(&PSK).unwrap();
    assert_ne!(first, second);
}

#[test]
fn a_preshared_key_of_another_length_is_refused() {
    assert!(matches!(AwaitingReply::start(&PSK[..31]), Err(NetworkError::Noise(_))));
    assert!(matches!(AwaitingReply::start(&[0u8; 33]), Err(NetworkError::Noise(_))));
    assert!(matches!(AwaitingReply::start(&[]), Err(NetworkError::Noise(_))));
}

#[test]
fn a_reply_that_is_no_message_is_refused() {
    let (handshake, _) = AwaitingReply::start(&PSK).unwrap();
    assert!(matches!(handshake.reply(&[], 4130), Err(NetworkError::InvalidHandshake)));
    let (handshake, _) = AwaitingReply::start(&PSK).unwrap();
    assert!(matches!(handshake.reply(&[1; 200], 4130), Err(NetworkError::InvalidHandshake)));
    for len in [31, 32, 79, 80, 95, 96, 105, 106, 107] {
        let (handshake, _) = AwaitingReply::start(&PSK).unwrap();
        let reply = vec![1; len];
        assert!(matches!(handshake.reply(&reply, 4130), Err(NetworkError::InvalidHandshake)));
    }
}

#[test]
fn a_reply_that_was_tampered_with_is_refused() {
    let mut other = responder(&PSK);
    let (handshake, first) = AwaitingReply::start(&PSK).unwrap();
    let mut reply =
        reply_to(&mut other, unframed(&first), &Version::new(1, 4131).serialize());
    let last = reply.len() - 1;
    reply[last] ^= 1;
    assert!(matches!(handshake.reply(&reply, 4130), Err(NetworkError::InvalidHandshake)));
}

#[test]
fn a_reply_without_a_version_is_refused() {
    let mut other = responder(&PSK);
    let (handshake, first) = AwaitingReply::start(&PSK).unwrap();
    let reply = reply_to(&mut other, unframed(&first), b"no version");
    // Ten bytes always spell a version.
    assert!(handshake.reply(&reply, 4130).is_ok());

    let mut other = responder(&PSK);
    let (handshake, first) = AwaitingReply::start(&PSK).unwrap();
    let reply = reply_to(&mut other, unframed(&first), b"nothing");
    assert!(matches!(handshake.reply(&reply, 4130), Err(NetworkError::InvalidHandshake)));
}

#[test]
fn a_peer_with_another_preshared_key_rejects_the_last_message() {
    let mut other = responder(&[8; 32]);
    let (handshake, first) = AwaitingReply::start(&PSK).unwrap();
    let reply = reply_to(&mut other, unframed(&first), &Version::new(1, 4131).serialize());
    let (_, last) = handshake.reply(&reply, 4130).unwrap();
    let mut buffer = vec![0u8; 65535];
    assert!(other.read_message(unframed(&last), &mut buffer).is_err());
}

#[test]
fn a_frame_starts_with_the_low_byte_of_the_length() {
    let buffer: Vec<u8> = (0..=255).cycle().take(600).collect();
    assert_eq!(frame_message(Ok(0), &buffer).unwrap(), vec![0]);
    assert_eq!(frame_message(Ok(3), &buffer).unwrap(), vec![3, 0, 1, 2]);
    let long = frame_message(Ok(515), &buffer).unwrap();
    assert_eq!(long.len(), 516);
    assert_eq!(long[0], 3);
    assert_eq!(&long[1..], &buffer[..515]);
}

#[test]
fn a_message_that_could_not_be_written_is_a_failure_of_the_session() {
    let framed = frame_message(Err(snow::Error::Input), &vec![0; 4]);
    assert!(matches!(framed, Err(NetworkError::Noise(snow::Error::Input))));
}

#[test]
fn the_version_of_a_peer_is_read_from_the_payload() {
    let mut buffer = Version::new(3, 0x1234).serialize();
    buffer.push(99);
    assert_eq!(peer_version(Ok(10), &buffer).unwrap(), Version::new(3, 0x1234));
    assert!(matches!(peer_version(Ok(9), &buffer), Err(NetworkError::InvalidHandshake)));
    assert!(matches!(peer_version(Ok(11), &buffer), Err(NetworkError::InvalidHandshake)));
    let failed = peer_version(Err(snow::Error::Decrypt), &buffer);
    assert!(matches!(failed, Err(NetworkError::InvalidHandshake)));
}

#[test]
fn versions_survive_the_wire() {
    for version in [0u64, 1, 0xff, 0x100, 0xffff_ffff, 0x1_0000_0000, 0x0123_4567_89ab_cdef, u64::MAX] {
        for port in [0u16, 1, 255, 256, 4131, u16::MAX] {
            let sent = Version::new(version, port);
            assert_eq!(Version::deserialize(&sent.serialize()), Some(sent));
        }
    }
    assert_eq!(Version::deserialize(&[]), None);
    assert_eq!(Version::deserialize(&[0; 11]), None);
}

#[test]
fn the_lowest_byte_of_a_version_comes_first() {
    assert_eq!(
        Version::new(0x0807_0605_0403_0201, 0x0a09).serialize(),
        vec![1, 2, 3, 4, 5, 6, 7, 8, 9, 10]
    );
    assert_eq!(own_version_payload(4130), vec![1, 0, 0, 0, 0, 0, 0, 0, 0x22, 0x10]);
}

#[test]
fn a_reply_whose_keys_are_zero_is_refused() {
    let (handshake, _) = AwaitingReply::start(&PSK).unwrap();
    assert!(matches!(handshake.reply(&[0; 106], 4130), Err(NetworkError::InvalidHandshake)));
}

#[test]
fn a_longer_payload_is_no_version() {
    let mut other = responder(&PSK);
    let (handshake, first) = AwaitingReply::start(&PSK).unwrap();
    let reply = reply_to(&mut other, unframed(&first), b"eleven byte");
    assert_eq!(reply.len(), 107);
    assert!(matches!(handshake.reply(&reply, 4130), Err(NetworkError::InvalidHandshake)));
}

#[test]
fn the_static_key_of_a_handshake_is_the_one_that_was_given() {
    let builder = snow::Builder::new(HANDSHAKE_PATTERN.parse().unwrap());
    let own = builder.generate_keypair().unwrap();
    let mut other = responder(&PSK);
    let (handshake, first) = AwaitingReply::start_with_key(&own.private, &PSK).unwrap();
    let reply = reply_to(&mut other, unframed(&first), &Version::new(1, 4131).serialize());
    let (_, last) = handshake.reply(&reply, 4130).unwrap();
    let mut buffer = vec![0u8; 65535];
    other.read_message(unframed(&last), &mut buffer).unwrap();
    assert_eq!(other.get_remote_static(), Some(own.public.as_slice()));

    assert!(matches!(
        AwaitingReply::start_with_key(&own.private, &PSK[..5]),
        Err(NetworkError::Noise(_))
    ));
}

#[test]
fn each_handshake_draws_its_own_static_key() {
    let mut seen = vec![];
    for _ in 0..2 {
        let mut other = responder(&PSK);
        let (handshake, first) = AwaitingReply::start(&PSK).unwrap();
        let reply = reply_to(&mut other, unframed(&first), &Version::new(1, 4131).serialize());
        let (_, last) = handshake.reply(&reply, 4130).unwrap();
        let mut buffer = vec![0u8; 65535];
        other.read_message(unframed(&last), &mut buffer).unwrap();
        seen.push(other.get_remote_static().unwrap().to_vec());
    }
    assert_ne!(seen[0], seen[1]);
}
