use ucp::crypto::{frame_length, key2string, nonce2string, parse_key, parse_nonce, string2key,
    string2nonce, u32_to_be, ChannelError, Key, Nonce, SecretChannel, MAC_BYTES, READ_BUF_LEN};

fn key(b: u8) -> Key {
    Key([b; 32])
}

fn nonce(b: u8) -> Nonce {
    Nonce([b; 24])
}

/// A writer and a reader that share a key, the reader's read nonce being
/// the writer's write nonce.
fn pair() -> (SecretChannel, SecretChannel) {
    let mut w = SecretChannel::new();
    let mut r = SecretChannel::new();
    w.set_key(key(7));
    r.set_key(key(7));
    w.set_write_nonce(nonce(3));
    r.set_read_nonce(nonce(3));
    (w, r)
}

#[test]
fn nonce_increment_is_little_endian_with_carry() {
    let mut n = Nonce([0; 24]);
    n.increment_le_inplace();
    assert_eq!(n.0[0], 1);
    let mut n = Nonce([0; 24]);
    n.0[0] = 255;
    n.0[1] = 255;
    n.increment_le_inplace();
    assert_eq!(&n.0[..3], &[0, 0, 1]);
    let mut n = Nonce([255; 24]);
    n.increment_le_inplace();
    assert_eq!(n.0, [0; 24]);
}

#[test]
fn key_text_is_standard_base64() {
    assert_eq!(key2string(&Key([0; 32])), format!("{}=", "A".repeat(43)));
    assert_eq!(nonce2string(&Nonce([0; 24])), "A".repeat(32));
    let mut k = Key([0; 32]);
    k.0[0] = 0xfb;
    k.0[1] = 0xff;
    assert!(key2string(&k).starts_with("+/8"));
}

#[test]
fn key_and_nonce_text_round_trip() {
    let mut k = Key([0; 32]);
    for i in 0..32 {
        k.0[i] = (i * 37 + 11) as u8;
    }
    assert_eq!(string2key(&key2string(&k)).unwrap().0, k.0);
    assert_eq!(parse_key(&key2string(&k)).unwrap().0, k.0);
    let mut n = Nonce([0; 24]);
    for i in 0..24 {
        n.0[i] = (i * 91 + 5) as u8;
    }
    assert_eq!(string2nonce(&nonce2string(&n)).unwrap().0, n.0);
    assert_eq!(parse_nonce(&nonce2string(&n)).unwrap().0, n.0);
}

#[test]
fn bad_key_text_is_refused() {
    assert!(parse_key("not base64!").is_none());
    assert!(parse_key(&nonce2string(&nonce(1))).is_none());
    assert!(parse_nonce(&key2string(&key(1))).is_none());
    assert!(parse_nonce("AAAA").is_none());
}

#[test]
fn frame_header_is_big_endian_length() {
    assert_eq!(u32_to_be(0x01020304), [1, 2, 3, 4]);
    assert_eq!(frame_length(&[0, 0, 0, 21]), Ok(21));
    assert_eq!(frame_length(&u32_to_be(READ_BUF_LEN as u32)), Ok(READ_BUF_LEN));
    assert_eq!(frame_length(&[0, 1, 2, 1]), Err(ChannelError::MessageTooBig(66049)));
    assert_eq!(frame_length(&[255, 255, 255, 255]), Err(ChannelError::MessageTooBig(u32::MAX)));
}

#[test]
fn error_messages() {
    assert_eq!(ChannelError::MessageTooBig(66049).message(), "Message too big (66049)");
    assert_eq!(
        ChannelError::DecryptFailed.message(),
        "Failed to decrypt message (could mean corruption or malicious attack"
    );
}

#[test]
fn a_sealed_frame_opens_to_the_message() {
    let (mut w, mut r) = pair();
    let frame = w.seal_frame(b"hello");
    assert_eq!(frame.ciphertext.len(), 5 + MAC_BYTES);
    assert_ne!(&frame.ciphertext[..5], b"hello");
    w.commit_write();
    assert_eq!(w.write_nonce().0[0], 4);
    let len = frame_length(&frame.header).unwrap();
    assert_eq!(len, frame.ciphertext.len());
    assert!(r.take_buffered(10).is_none());
    let out = r.open_frame(&frame.ciphertext, 100).unwrap();
    assert_eq!(out, b"hello".to_vec());
    assert_eq!(r.read_nonce().0[0], 4);
    assert!(r.take_buffered(10).is_none());
}

#[test]
fn what_a_reader_cannot_take_stays_pending_in_order() {
    let (mut w, mut r) = pair();
    let frame = w.seal_frame(b"hello world");
    w.commit_write();
    assert_eq!(r.open_frame(&frame.ciphertext, 2).unwrap(), b"he".to_vec());
    assert_eq!(r.take_buffered(4).unwrap(), b"llo ".to_vec());
    assert_eq!(r.take_buffered(0).unwrap(), Vec::<u8>::new());
    assert_eq!(r.take_buffered(100).unwrap(), b"world".to_vec());
    assert!(r.take_buffered(100).is_none());
    let second = w.seal_frame(b"again");
    assert_eq!(r.open_frame(&second.ciphertext, 100).unwrap(), b"again".to_vec());
}

#[test]
fn a_tampered_frame_is_refused_and_nothing_moves() {
    let (w, mut r) = pair();
    let mut frame = w.seal_frame(b"hello");
    frame.ciphertext[3] ^= 1;
    assert_eq!(r.open_frame(&frame.ciphertext, 100), Err(ChannelError::DecryptFailed));
    assert_eq!(r.read_nonce().0, nonce(3).0);
    assert_eq!(r.open_frame(&[1, 2, 3], 100), Err(ChannelError::DecryptFailed));
}

#[test]
fn frames_out_of_nonce_step_do_not_open() {
    let (mut w, mut r) = pair();
    let _first = w.seal_frame(b"one");
    w.commit_write();
    let second = w.seal_frame(b"two");
    assert_eq!(r.open_frame(&second.ciphertext, 100), Err(ChannelError::DecryptFailed));
}

#[test]
fn fresh_channels_have_random_keys() {
    let a = SecretChannel::new();
    let b = SecretChannel::new();
    assert_ne!(a.key().0, b.key().0);
    assert_ne!(a.read_nonce().0, a.write_nonce().0);
}

#[test]
fn a_reader_gets_every_frame_back_in_order() {
    let (mut w, mut r) = pair();
    let start = w.write_nonce().0;
    let msgs: Vec<Vec<u8>> = vec![b"first".to_vec(), b"".to_vec(), b"the third one".to_vec()];
    let mut frames = Vec::new();
    let mut nonces = Vec::new();
    for m in &msgs {
        nonces.push(w.write_nonce().0);
        frames.push(w.seal_frame(m));
        w.commit_write();
    }
    for i in 0..nonces.len() {
        for j in i + 1..nonces.len() {
            assert_ne!(nonces[i], nonces[j]);
        }
    }
    assert_eq!(r.read_nonce().0, start);
    let mut out = Vec::new();
    let mut next = 0;
    for size in [3usize, 1, 4, 2, 100, 5, 5, 5] {
        if let Some(b) = r.take_buffered(size) {
            out.extend(b);
            continue;
        }
        if next == frames.len() {
            break;
        }
        let f = &frames[next];
        next += 1;
        assert_eq!(frame_length(&f.header), Ok(f.ciphertext.len()));
        out.extend(r.open_frame(&f.ciphertext, size).unwrap());
    }
    assert_eq!(out, b"firstthe third one".to_vec());
    assert!(r.take_buffered(10).is_none());
    assert_eq!(r.read_nonce().0, w.write_nonce().0);
}
