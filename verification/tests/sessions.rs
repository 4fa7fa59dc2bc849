use aes_gcm::aead::{Aead, KeyInit, Payload};
use aes_gcm::Aes128Gcm;
use md5::{Digest, Md5};
use sha2::Sha256;
use tunl::common::aead::{open, seal};
use tunl::common::hash::kdf;
use tunl::config::Config;
use tunl::error::TunlError;
use tunl::proxy::header::{
    open_header, open_length, parse_request, seal_response_header, seal_response_length,
};
use tunl::proxy::vmess::{Action, Event, ReadStep, SocketEvent, VmessStream};

const AUTH_ID: [u8; 16] = [7; 16];
const NONCE: [u8; 8] = [9; 8];

fn config() -> Config {
    let mut config = Config::from_vars(
        "550e8400-e29b-41d4-a716-446655440000",
        Some("worker.example".to_string()),
        None,
    );
    config.proxy_addr = "203.0.113.7".to_string();
    config.proxy_port = 8443;
    config
}

fn user_key() -> Vec<u8> {
    let mut hash = Md5::new();
    hash.update(config().uuid);
    hash.update(b"c48619fe-8f02-49e0-b9e9-edf763e17e21");
    hash.finalize().to_vec()
}

fn client_seal(key_salt: &[u8], nonce_salt: &[u8], message: &[u8]) -> Vec<u8> {
    let key = kdf(&user_key(), &[key_salt, &AUTH_ID, &NONCE]);
    let nonce = kdf(&user_key(), &[nonce_salt, &AUTH_ID, &NONCE]);
    Aes128Gcm::new(key[..16].into())
        .encrypt(nonce[..12].into(), Payload { msg: message, aad: &AUTH_ID })
        .unwrap()
}

fn client_open(key_salt: &[u8], nonce_salt: &[u8], sealed: &[u8]) -> Vec<u8> {
    let key = kdf(&Sha256::digest([2; 16])[..16], &[key_salt]);
    let nonce = kdf(&Sha256::digest([1; 16])[..16], &[nonce_salt]);
    Aes128Gcm::new(key[..16].into()).decrypt(nonce[..12].into(), sealed).unwrap()
}

fn header(command: u8, address: &[u8]) -> Vec<u8> {
    let mut header = vec![1];
    header.extend_from_slice(&[1; 16]);
    header.extend_from_slice(&[2; 16]);
    header.extend_from_slice(&[0x5a, 1, 2, 3]);
    header.push(command);
    header.extend_from_slice(&[0x01, 0xbb]);
    header.extend_from_slice(address);
    header
}

fn greeting_for(length: u16) -> Vec<u8> {
    let mut greeting = AUTH_ID.to_vec();
    greeting.extend(client_seal(
        b"VMess Header AEAD Key_Length",
        b"VMess Header AEAD Nonce_Length",
        &length.to_be_bytes(),
    ));
    greeting.extend_from_slice(&NONCE);
    greeting
}

fn seal_header(header: &[u8]) -> Vec<u8> {
    client_seal(b"VMess Header AEAD Key", b"VMess Header AEAD Nonce", header)
}

fn answered(command: u8) -> VmessStream {
    let header = header(command, &[1, 192, 0, 2, 1]);
    let mut stream = VmessStream::new(config());
    assert!(matches!(stream.process(Event::Begin), Ok(Action::Read(42))));
    let length = header.len() + 16;
    match stream.process(Event::Received(greeting_for(header.len() as u16))) {
        Ok(Action::Read(count)) => assert_eq!(count, length),
        _ => panic!("no read"),
    }
    match stream.process(Event::Received(seal_header(&header))) {
        Ok(Action::Send(sealed)) => {
            assert_eq!(sealed.len(), 18);
            assert_eq!(
                client_open(b"AEAD Resp Header Len Key", b"AEAD Resp Header Len IV", &sealed),
                [0, 4]
            );
        }
        _ => panic!("no length"),
    }
    match stream.process(Event::Sent) {
        Ok(Action::Send(sealed)) => {
            assert_eq!(sealed.len(), 20);
            assert_eq!(
                client_open(b"AEAD Resp Header Key", b"AEAD Resp Header IV", &sealed),
                [0x5a, 0, 0, 0]
            );
        }
        _ => panic!("no header"),
    }
    stream
}

fn is_relay(outcome: Result<Action, TunlError>, expected: (&str, u16)) -> bool {
    match outcome {
        Ok(Action::Relay { addr, port }) => (addr.as_str(), port) == expected,
        _ => false,
    }
}

fn refusal(greeting: Vec<u8>, sealed: Option<Vec<u8>>) -> Option<TunlError> {
    let mut stream = VmessStream::new(config());
    stream.process(Event::Begin).ok().unwrap();
    let mut outcome = stream.process(Event::Received(greeting));
    if let (Ok(_), Some(sealed)) = (&outcome, sealed) {
        outcome = stream.process(Event::Received(sealed));
    }
    let error = outcome.err();
    assert_eq!(stream.process(Event::Sent).err(), Some(TunlError::OutOfTurn));
    error
}

#[test]
fn tcp_request_falls_back_to_the_proxy() {
    let mut stream = answered(1);
    assert!(is_relay(stream.process(Event::Sent), ("192.0.2.1", 443)));
    assert!(is_relay(stream.process(Event::Failed), ("203.0.113.7", 8443)));
    assert_eq!(stream.process(Event::Failed).err(), Some(TunlError::NoUpstream));
    assert_eq!(stream.process(Event::Begin).err(), Some(TunlError::OutOfTurn));
}

#[test]
fn tcp_request_ends_with_its_relay() {
    let mut stream = answered(1);
    assert!(is_relay(stream.process(Event::Sent), ("192.0.2.1", 443)));
    assert!(matches!(stream.process(Event::Succeeded), Ok(Action::Finish)));
    let mut stream = answered(1);
    stream.process(Event::Sent).ok().unwrap();
    stream.process(Event::Failed).ok().unwrap();
    assert!(matches!(stream.process(Event::Succeeded), Ok(Action::Finish)));
}

#[test]
fn datagram_comes_back_once_resolved() {
    let mut stream = answered(2);
    assert!(matches!(stream.process(Event::Sent), Ok(Action::ReadDatagram(65535))));
    match stream.process(Event::Received(vec![1, 2, 3])) {
        Ok(Action::Resolve(query)) => assert_eq!(query, [1, 2, 3]),
        _ => panic!("no query"),
    }
    match stream.process(Event::Succeeded) {
        Ok(Action::Send(reply)) => assert_eq!(reply, [1, 2, 3]),
        _ => panic!("no reply"),
    }
    assert!(matches!(stream.process(Event::Sent), Ok(Action::Finish)));
}

#[test]
fn unresolved_datagram_is_dropped() {
    let mut stream = answered(2);
    stream.process(Event::Sent).ok().unwrap();
    stream.process(Event::Received(vec![1, 2, 3])).ok().unwrap();
    assert!(matches!(stream.process(Event::Failed), Ok(Action::Finish)));
}

#[test]
fn forged_greeting_is_refused() {
    let mut greeting = greeting_for(45);
    greeting[20] ^= 1;
    assert_eq!(refusal(greeting, None), Some(TunlError::Cipher));
    let mut greeting = greeting_for(45);
    greeting[0] ^= 1;
    assert_eq!(refusal(greeting, None), Some(TunlError::Cipher));
}

#[test]
fn forged_header_is_refused() {
    let header = header(1, &[1, 192, 0, 2, 1]);
    let mut sealed = seal_header(&header);
    sealed[3] ^= 0x80;
    assert_eq!(
        refusal(greeting_for(header.len() as u16), Some(sealed)),
        Some(TunlError::Cipher)
    );
}

#[test]
fn malformed_headers_are_refused() {
    let cases = [
        (vec![], TunlError::UnexpectedEof),
        (vec![2], TunlError::InvalidVersion),
        (vec![1; 36], TunlError::EarlyEof),
        (vec![1; 37], TunlError::UnexpectedEof),
        (vec![1; 39], TunlError::EarlyEof),
        (header(1, &[]), TunlError::UnexpectedEof),
        (header(1, &[4, 0]), TunlError::InvalidAddressType),
    ];
    for (header, error) in cases {
        let greeting = greeting_for(header.len() as u16);
        assert_eq!(refusal(greeting, Some(seal_header(&header))), Some(error));
    }
}

#[test]
fn header_length_without_room_for_the_tag() {
    assert_eq!(refusal(greeting_for(65520), None), Some(TunlError::HeaderLengthOverflow));
    let mut stream = VmessStream::new(config());
    stream.process(Event::Begin).ok().unwrap();
    assert!(matches!(
        stream.process(Event::Received(greeting_for(65519))),
        Ok(Action::Read(65535))
    ));
}

#[test]
fn events_out_of_turn_change_nothing() {
    let mut stream = VmessStream::new(config());
    assert_eq!(stream.process(Event::Sent).err(), Some(TunlError::OutOfTurn));
    stream.process(Event::Begin).ok().unwrap();
    assert_eq!(
        stream.process(Event::Received(vec![0; 41])).err(),
        Some(TunlError::OutOfTurn)
    );
    assert!(matches!(
        stream.process(Event::Received(greeting_for(45))),
        Ok(Action::Read(61))
    ));
}

#[test]
fn request_fields() {
    let mut bytes = header(3, &[2, 4, b'h', b'o', b's', b't']);
    bytes.extend_from_slice(&[1, 2, 3]);
    let request = parse_request(&bytes).ok().unwrap();
    assert_eq!(request.iv, [1; 16]);
    assert_eq!(request.key, [2; 16]);
    assert_eq!(request.response_auth, 0x5a);
    assert!(!request.is_tcp);
    assert_eq!(request.port, 443);
    assert_eq!(request.addr, "host");
    assert_eq!(seal_response_length(&request).unwrap().len(), 18);
    assert_eq!(seal_response_header(&request).unwrap().len(), 20);
}

#[test]
fn reading_hands_bytes_over_in_order() {
    let mut stream = VmessStream::new(config());
    assert!(matches!(stream.poll_read(4, SocketEvent::Start), ReadStep::Poll));
    assert!(matches!(stream.poll_read(4, SocketEvent::Pending), ReadStep::Pending));
    assert!(matches!(stream.poll_read(4, SocketEvent::Message(None)), ReadStep::Poll));
    match stream.poll_read(4, SocketEvent::Message(Some(vec![1, 2, 3, 4, 5, 6]))) {
        ReadStep::Deliver(data) => assert_eq!(data, [1, 2, 3, 4]),
        _ => panic!("nothing delivered"),
    }
    assert_eq!(stream.buffer.len(), 2);
    assert!(matches!(
        stream.poll_read(0, SocketEvent::Message(Some(vec![7]))),
        ReadStep::Poll
    ));
    match stream.poll_read(9, SocketEvent::Start) {
        ReadStep::Deliver(data) => assert_eq!(data, [5, 6, 7]),
        _ => panic!("nothing delivered"),
    }
    assert!(matches!(stream.poll_read(9, SocketEvent::Closed), ReadStep::End));
}

#[test]
fn sealed_with_associated_data_opens_again() {
    let key = [3; 16];
    let nonce = [4; 12];
    for message in [&b""[..], b"message"] {
        let sealed = seal(&key, &nonce, b"associated", message).unwrap();
        assert_eq!(sealed.len(), message.len() + 16);
        assert_eq!(
            Ok(sealed.clone()),
            Aes128Gcm::new(&key.into())
                .encrypt(&nonce.into(), Payload { msg: message, aad: b"associated" })
        );
        assert_eq!(open(&key, &nonce, b"associated", &sealed), Ok(message.to_vec()));
        assert_eq!(open(&key, &nonce, b"other", &sealed), Err(TunlError::Cipher));
        assert_eq!(open(&key, &nonce, b"associated", &sealed[1..]), Err(TunlError::Cipher));
    }
}

#[test]
fn header_of_a_client_opens() {
    for header in [vec![], header(1, &[1, 192, 0, 2, 1])] {
        assert_eq!(
            open_header(&config().uuid, &AUTH_ID, &NONCE, &seal_header(&header)),
            Ok(header.clone())
        );
        let greeting = greeting_for(header.len() as u16);
        assert_eq!(
            open_length(&config().uuid, &AUTH_ID, &greeting[16..34], &NONCE),
            Ok(header.len() as u16)
        );
    }
}
