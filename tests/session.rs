use dh_chat::key_exchange::{encode_public_key, keypair_from_private, ProtocolParameters};
use dh_chat::session::{establish, message_text, Inbound, Receiver, Sender};

fn message(i: Inbound) -> Vec<u8> {
    match i {
        Inbound::Message(m) => m,
        Inbound::Closed => panic!("expected a message"),
    }
}

#[test]
fn end_to_end_hello() {
    let p = ProtocolParameters::standard();
    let listener_keys = keypair_from_private(&p, 0x1234567890ABCDEF);
    let dialer_keys = keypair_from_private(&p, 0xFEDCBA0987654321);
    // Each side sends its frame and reads the other's.
    let listener_frame = encode_public_key(listener_keys.public_key);
    let dialer_frame = encode_public_key(dialer_keys.public_key);
    let mut listener = establish(&p, &listener_keys, &dialer_frame);
    let mut dialer = establish(&p, &dialer_keys, &listener_frame);
    assert_eq!(listener.peer_public, dialer_keys.public_key);
    assert_eq!(dialer.peer_public, listener_keys.public_key);
    assert_eq!(listener.secret, dialer.secret);
    assert_eq!(listener.secret, 0x90111ede333ffab9);

    let out = dialer.sender.send_line("hello\n").unwrap();
    assert_eq!(out.plain, b"hello".to_vec());
    assert_eq!(out.cipher, vec![0x5c, 0x55, 0xa7, 0xb5, 0xac]);
    assert!(out.verified);
    let got = message(listener.receiver.on_read(&out.cipher));
    assert_eq!(got, vec![0x68, 0x65, 0x6c, 0x6c, 0x6f]);

    // The other direction runs on its own keystream from the same secret.
    let back = listener.sender.send_line("hello").unwrap();
    assert_eq!(back.cipher, out.cipher);
    assert_eq!(message(dialer.receiver.on_read(&back.cipher)), b"hello".to_vec());
}

#[test]
fn directions_advance_with_their_own_traffic() {
    let mut tx = Sender::new(99);
    let mut rx = Receiver::new(99);
    let a = tx.send_line("first").unwrap();
    let b = tx.send_line("second line").unwrap();
    assert_eq!(message(rx.on_read(&a.cipher)), b"first".to_vec());
    assert_eq!(message(rx.on_read(&b.cipher)), b"second line".to_vec());
}

#[test]
fn chunks_split_differently_still_decrypt() {
    let mut tx = Sender::new(5);
    let mut rx = Receiver::new(5);
    let a = tx.send_line("abc").unwrap();
    let b = tx.send_line("defg").unwrap();
    let mut wire = a.cipher.clone();
    wire.extend(b.cipher.iter());
    let first = message(rx.on_read(&wire[..2]));
    let rest = message(rx.on_read(&wire[2..]));
    assert_eq!(first, b"ab".to_vec());
    assert_eq!(rest, b"cdefg".to_vec());
}

#[test]
fn empty_line_sends_nothing() {
    let mut tx = Sender::new(1234);
    assert!(tx.send_line("").is_none());
    assert!(tx.send_line("\n").is_none());
    assert!(tx.send_line("  \t \r\n").is_none());
    // The keystream did not move: the next line encrypts as on a fresh sender.
    let after = tx.send_line("x").unwrap();
    let fresh = Sender::new(1234).send_line("x").unwrap();
    assert_eq!(after.cipher, fresh.cipher);
}

#[test]
fn line_is_trimmed_before_encryption() {
    let mut tx = Sender::new(3);
    let out = tx.send_line("  hi there \r\n").unwrap();
    assert_eq!(out.plain, b"hi there".to_vec());
    assert_eq!(out.cipher.len(), 8);
    let mut rx = Receiver::new(3);
    assert_eq!(message(rx.on_read(&out.cipher)), b"hi there".to_vec());
}

#[test]
fn peer_close_is_zero_length_read() {
    let mut rx = Receiver::new(77);
    assert!(matches!(rx.on_read(&[]), Inbound::Closed));
    // The keystream was left alone.
    let mut tx = Sender::new(77);
    let out = tx.send_line("ok").unwrap();
    assert_eq!(message(rx.on_read(&out.cipher)), b"ok".to_vec());
}

#[test]
fn message_text_of_valid_and_invalid_bytes() {
    assert_eq!(message_text(b"  hello\n"), Some("hello".to_string()));
    assert_eq!(message_text(b""), Some(String::new()));
    assert_eq!(message_text("caf\u{e9}".as_bytes()), Some("caf\u{e9}".to_string()));
    assert_eq!(message_text(&[0x68, 0xff, 0x69]), None);
    assert_eq!(message_text(&[0xc3]), None);
}
