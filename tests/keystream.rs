use dh_chat::keystream::LcgCipher;

#[test]
fn next_byte_values() {
    let mut c = LcgCipher::new(1);
    let got: Vec<u8> = (0..5).map(|_| c.next_byte()).collect();
    assert_eq!(got, vec![0x41, 0x96, 0x27, 0xc4, 0xf9]);
    let mut z = LcgCipher::new(0);
    assert_eq!(z.next_byte(), 0x00);
    assert_eq!(z.next_byte(), 0xd3);
    assert_eq!(z.next_byte(), 0xa7);
}

#[test]
fn full_width_seed_is_reduced() {
    let mut c = LcgCipher::new(u64::MAX);
    assert_eq!(c.next_byte(), 0xbe);
    assert_eq!(c.next_byte(), 0x11);
    assert_eq!(c.next_byte(), 0x26);
}

#[test]
fn same_seed_same_stream() {
    let mut a = LcgCipher::new(0x90111ede333ffab9);
    let mut b = LcgCipher::new(0x90111ede333ffab9);
    for _ in 0..1000 {
        assert_eq!(a.next_byte(), b.next_byte());
    }
}

#[test]
fn stream_does_not_depend_on_call_split() {
    let data: Vec<u8> = (0..40u8).collect();
    let mut whole = LcgCipher::new(42);
    let all = whole.process(&data);
    let mut parts = LcgCipher::new(42);
    let mut pieced = parts.process(&data[..7]);
    pieced.extend(parts.process(&data[7..30]));
    pieced.extend(parts.process(&data[30..]));
    assert_eq!(all, pieced);
    assert_eq!(whole.next_byte(), parts.next_byte());
}

#[test]
fn process_values() {
    let mut c = LcgCipher::new(7);
    assert_eq!(c.process(b"hi"), vec![0xa4, 0x4f]);
    let mut e = LcgCipher::new(7);
    assert_eq!(e.process(&[]), Vec::<u8>::new());
    assert_eq!(e.process(b"hi"), vec![0xa4, 0x4f]);
}

#[test]
fn xor_round_trip() {
    let msgs: Vec<Vec<u8>> = vec![vec![], b"hello".to_vec(), vec![0, 255, 128, 1], (0..=255u8).collect()];
    for seed in [0u64, 1, 0xDEADBEEF, u64::MAX] {
        for m in msgs.iter() {
            let enc = LcgCipher::new(seed).process(m);
            let dec = LcgCipher::new(seed).process(&enc);
            assert_eq!(&dec, m);
        }
    }
}

#[test]
fn preview_does_not_advance() {
    let mut c = LcgCipher::new(1);
    assert_eq!(c.preview(5), vec![0x41, 0x96, 0x27, 0xc4, 0xf9]);
    assert_eq!(c.preview(0), Vec::<u8>::new());
    assert_eq!(c.next_byte(), 0x41);
    assert_eq!(c.preview(2), vec![0x96, 0x27]);
}

#[test]
fn encrypt_and_verify_matches_process() {
    let mut a = LcgCipher::new(7);
    let (cipher, ok) = a.encrypt_and_verify(b"hi");
    assert!(ok);
    assert_eq!(cipher, vec![0xa4, 0x4f]);
    let mut b = LcgCipher::new(7);
    b.process(b"hi");
    assert_eq!(a.next_byte(), b.next_byte());
}
