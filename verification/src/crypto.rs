//! Authenticated encryption of the byte stream: keys and nonces, their text
//! form, and the framing of sealed messages (a four-byte big-endian length,
//! then the ciphertext), with the buffering of what a reader could not take.
use vstd::prelude::*;
use crate::numeral::digits;
use crate::frames::nonce_after;
use crate::text::{latin1, push_latin1};
use rustc_serialize::base64::{FromBase64, ToBase64, STANDARD};
use sodiumoxide::crypto::secretbox;

verus! {

/// Number of bytes in a secretbox key.
pub const KEY_BYTES: usize = 32;

/// Number of bytes in a secretbox nonce.
pub const NONCE_BYTES: usize = 24;

/// Number of bytes by which a sealed message is longer than its plaintext.
pub const MAC_BYTES: usize = 16;

/// The largest ciphertext a reader accepts in one frame.
pub const READ_BUF_LEN: usize = 66048;

/// A symmetric key for authenticated encryption.
#[derive(Clone, Copy, Debug)]
pub struct Key(pub [u8; 32]);

/// A nonce for authenticated encryption.
#[derive(Clone, Copy, Debug)]
pub struct Nonce(pub [u8; 24]);

/// The little-endian increment of a byte string, modulo 2^(8 * len).
pub open spec fn increment_le(s: Seq<u8>) -> Seq<u8>
    decreases s.len(),
{
    if s.len() == 0 {
        s
    } else if s[0] == 255 {
        seq![0u8] + increment_le(s.drop_first())
    } else {
        s.update(0, (s[0] + 1) as u8)
    }
}

/// What `secretbox::seal` of sodiumoxide gives for message `m`, nonce `n`
/// and key `k` (XSalsa20-Poly1305).
pub uninterp spec fn secretbox_seal(m: Seq<u8>, n: Seq<u8>, k: Seq<u8>) -> Seq<u8>;

/// What `secretbox::open` of sodiumoxide gives for ciphertext `c`, nonce
/// `n` and key `k`: the plaintext, or `None` where verification fails.
pub uninterp spec fn secretbox_open(c: Seq<u8>, n: Seq<u8>, k: Seq<u8>) -> Option<Seq<u8>>;

/// The character of a six-bit value in the standard base64 alphabet
/// (`A`-`Z`, `a`-`z`, `0`-`9`, `+`, `/`).
pub open spec fn base64_char(v: nat) -> char {
    if v < 26 {
        (65 + v) as char
    } else if v < 52 {
        (97 + v - 26) as char
    } else if v < 62 {
        (48 + v - 52) as char
    } else if v == 62 {
        '+'
    } else {
        '/'
    }
}

/// Standard base64 (RFC 4648) of the bytes, padded with `=`, with no line
/// breaks: each three bytes become four characters of six bits each, and a
/// last group of one or two bytes becomes two or three characters and `=`
/// up to four.
pub open spec fn base64_standard(b: Seq<u8>) -> Seq<char>
    decreases b.len(),
{
    if b.len() == 0 {
        Seq::empty()
    } else if b.len() == 1 {
        seq![base64_char(b[0] as nat / 4), base64_char((b[0] as nat % 4) * 16), '=', '=']
    } else if b.len() == 2 {
        seq![
            base64_char(b[0] as nat / 4),
            base64_char((b[0] as nat % 4) * 16 + b[1] as nat / 16),
            base64_char((b[1] as nat % 16) * 4),
            '=',
        ]
    } else {
        seq![
            base64_char(b[0] as nat / 4),
            base64_char((b[0] as nat % 4) * 16 + b[1] as nat / 16),
            base64_char((b[1] as nat % 16) * 4 + b[2] as nat / 64),
            base64_char(b[2] as nat % 64),
        ] + base64_standard(b.skip(3))
    }
}

/// What `from_base64` of rustc-serialize gives for the text, `None` for an error.
pub uninterp spec fn base64_decoded(text: Seq<char>) -> Option<Seq<u8>>;

/// Calls `secretbox::Nonce::increment_le_inplace` of sodiumoxide (libsodium's
/// `sodium_increment`): the nonce taken as an unsigned little-endian number
/// plus one, wrapping around at the top.
#[verifier::external_body]
fn sodium_increment_nonce(n: &mut Nonce)
    ensures
        final(n).0@ == increment_le(old(n).0@),
{
    let mut outside = secretbox::Nonce(n.0);
    outside.increment_le_inplace();
    n.0 = outside.0;
}

/// Calls `secretbox::gen_key` of sodiumoxide: a key from the system's
/// random source. Nothing is claimed of its bytes.
#[verifier::external_body]
fn sodium_gen_key() -> Key {
    Key(secretbox::gen_key().0)
}

/// Calls `secretbox::gen_nonce` of sodiumoxide: a nonce from the system's
/// random source. Nothing is claimed of its bytes.
#[verifier::external_body]
fn sodium_gen_nonce() -> Nonce {
    Nonce(secretbox::gen_nonce().0)
}

/// Calls `secretbox::Key::from_slice` of sodiumoxide, which gives a key
/// holding the bytes exactly when there are as many as a key has.
#[verifier::external_body]
fn sodium_key_from_slice(bytes: &[u8]) -> (k: Option<Key>)
    ensures
        k is Some <==> bytes@.len() == KEY_BYTES,
        k matches Some(key) ==> key.0@ == bytes@,
{
    secretbox::Key::from_slice(bytes).map(|k| Key(k.0))
}

/// Calls `secretbox::Nonce::from_slice` of sodiumoxide, which gives a nonce
/// holding the bytes exactly when there are as many as a nonce has.
#[verifier::external_body]
fn sodium_nonce_from_slice(bytes: &[u8]) -> (n: Option<Nonce>)
    ensures
        n is Some <==> bytes@.len() == NONCE_BYTES,
        n matches Some(nonce) ==> nonce.0@ == bytes@,
{
    secretbox::Nonce::from_slice(bytes).map(|n| Nonce(n.0))
}

/// Calls `secretbox::seal` of sodiumoxide. The ciphertext is the named
/// result, sixteen bytes longer than the message, and `secretbox::open`
/// with the same nonce and key gives the message back (the two are each
/// other's inverse, as the crate documents). The cipher itself is not
/// stated.
#[verifier::external_body]
fn sodium_seal(m: &[u8], n: &Nonce, k: &Key) -> (c: Vec<u8>)
    requires
        m@.len() <= usize::MAX - MAC_BYTES,
    ensures
        c@ == secretbox_seal(m@, n.0@, k.0@),
        c@.len() == m@.len() + MAC_BYTES,
        secretbox_open(c@, n.0@, k.0@) == Some(m@),
{
    secretbox::seal(m, &secretbox::Nonce(n.0), &secretbox::Key(k.0))
}

/// Calls `secretbox::open` of sodiumoxide: the named result, which when
/// present is sixteen bytes shorter than the ciphertext. Which ciphertexts
/// verify is not stated beyond what `sodium_seal` states.
#[verifier::external_body]
fn sodium_open(c: &[u8], n: &Nonce, k: &Key) -> (m: Option<Vec<u8>>)
    ensures
        secretbox_open(c@, n.0@, k.0@) == (match m {
            Some(v) => Some(v@),
            None => None,
        }),
        m matches Some(v) ==> c@.len() >= MAC_BYTES && v@.len() == c@.len() - MAC_BYTES,
{
    secretbox::open(c, &secretbox::Nonce(n.0), &secretbox::Key(k.0)).ok()
}

/// Calls `to_base64(STANDARD)` of rustc-serialize: standard padded base64
/// with no line breaks (`base64_standard`), which `from_base64` reads back
/// to the same bytes (the round trip that the crate documents).
#[verifier::external_body]
fn base64_encode(bytes: &[u8]) -> (s: String)
    requires
        bytes@.len() <= usize::MAX / 2,
    ensures
        s@ == base64_standard(bytes@),
        base64_decoded(s@) == Some(bytes@),
{
    bytes.to_base64(STANDARD)
}

/// Calls `from_base64` of rustc-serialize: the named result, `None` where
/// the crate reports an error.
#[verifier::external_body]
fn base64_decode(text: &str) -> (r: Option<Vec<u8>>)
    ensures
        base64_decoded(text@) == (match r {
            Some(v) => Some(v@),
            None => None,
        }),
{
    text.from_base64().ok()
}

impl Nonce {
    /// Treats the nonce as an unsigned little-endian number and increments it.
    pub fn increment_le_inplace(&mut self)
        ensures
            final(self).0@ == increment_le(old(self).0@),
    {
        sodium_increment_nonce(self);
    }
}

/// The text form of a key: its bytes in standard base64.
pub fn key2string(key: &Key) -> (s: String)
    ensures
        s@ == base64_standard(key.0@),
        base64_decoded(s@) == Some(key.0@),
{
    base64_encode(&key.0)
}

/// The text form of a nonce: its bytes in standard base64.
pub fn nonce2string(nonce: &Nonce) -> (s: String)
    ensures
        s@ == base64_standard(nonce.0@),
        base64_decoded(s@) == Some(nonce.0@),
{
    base64_encode(&nonce.0)
}

/// The key whose text form is `s`. The text must decode to as many bytes as
/// a key has; `parse_key` tests that first.
pub fn string2key(s: &str) -> (r: Result<Key, String>)
    requires
        base64_decoded(s@) matches Some(b) && b.len() == KEY_BYTES,
    ensures
        r matches Ok(k) && base64_decoded(s@) == Some(k.0@),
{
    match base64_decode(s) {
        Some(bytes) => match sodium_key_from_slice(bytes.as_slice()) {
            Some(k) => Ok(k),
            None => Err(String::new()),
        },
        None => Err(String::new()),
    }
}

/// The nonce whose text form is `s`. The text must decode to as many bytes
/// as a nonce has; `parse_nonce` tests that first.
pub fn string2nonce(s: &str) -> (r: Result<Nonce, String>)
    requires
        base64_decoded(s@) matches Some(b) && b.len() == NONCE_BYTES,
    ensures
        r matches Ok(n) && base64_decoded(s@) == Some(n.0@),
{
    match base64_decode(s) {
        Some(bytes) => match sodium_nonce_from_slice(bytes.as_slice()) {
            Some(n) => Ok(n),
            None => Err(String::new()),
        },
        None => Err(String::new()),
    }
}

/// The key whose text form is `s`, or `None` where `s` is not base64 of
/// exactly a key's worth of bytes.
pub fn parse_key(s: &str) -> (r: Option<Key>)
    ensures
        r is Some <==> (base64_decoded(s@) matches Some(b) && b.len() == KEY_BYTES),
        r matches Some(k) ==> base64_decoded(s@) == Some(k.0@),
{
    match base64_decode(s) {
        Some(bytes) => {
            if bytes.len() == KEY_BYTES {
                match string2key(s) {
                    Ok(k) => Some(k),
                    Err(_) => None,
                }
            } else {
                None
            }
        },
        None => None,
    }
}

/// The nonce whose text form is `s`, or `None` where `s` is not base64 of
/// exactly a nonce's worth of bytes.
pub fn parse_nonce(s: &str) -> (r: Option<Nonce>)
    ensures
        r is Some <==> (base64_decoded(s@) matches Some(b) && b.len() == NONCE_BYTES),
        r matches Some(n) ==> base64_decoded(s@) == Some(n.0@),
{
    match base64_decode(s) {
        Some(bytes) => {
            if bytes.len() == NONCE_BYTES {
                match string2nonce(s) {
                    Ok(n) => Some(n),
                    Err(_) => None,
                }
            } else {
                None
            }
        },
        None => None,
    }
}

/// The big-endian value of four bytes.
pub open spec fn be_value(b: Seq<u8>) -> nat {
    b[0] as nat * 16777216 + b[1] as nat * 65536 + b[2] as nat * 256 + b[3] as nat
}

/// The four big-endian bytes of `n`.
pub open spec fn be_bytes(n: u32) -> Seq<u8> {
    seq![(n / 16777216) as u8, ((n / 65536) % 256) as u8, ((n / 256) % 256) as u8, (n % 256) as u8]
}

/// The low 32 bits of `n`, as a cast to `u32` keeps them.
pub open spec fn low32(n: nat) -> u32 {
    (n % 4294967296) as u32
}

/// Reading the big-endian bytes of a number gives the number.
pub proof fn lemma_be_round_trip(n: u32)
    ensures
        be_bytes(n).len() == 4,
        be_value(be_bytes(n)) == n,
{
    let b = be_bytes(n);
    let c0: u32 = n / 16777216u32;
    let c1: u32 = (n / 65536u32) % 256u32;
    let c2: u32 = (n / 256u32) % 256u32;
    let c3: u32 = n % 256u32;
    assert(c0 < 256u32 && c0 * 16777216u32 + c1 * 65536u32 + c2 * 256u32 + c3 == n) by (bit_vector)
        requires
            c0 == n / 16777216u32,
            c1 == (n / 65536u32) % 256u32,
            c2 == (n / 256u32) % 256u32,
            c3 == n % 256u32,
    ;
    assert(b[0] as nat == c0 && b[1] as nat == c1 && b[2] as nat == c2 && b[3] as nat == c3);
}

/// The four big-endian bytes of `n`.
pub fn u32_to_be(n: u32) -> (b: [u8; 4])
    ensures
        b@ == be_bytes(n),
{
    let b = [(n / 16777216) as u8, ((n / 65536) % 256) as u8, ((n / 256) % 256) as u8, (n % 256) as u8];
    assert(b@ =~= be_bytes(n));
    b
}

/// The reading end of a stream: the nonce of the next frame it opens and
/// the cleartext it has opened but not handed out.
#[verifier::ext_equal]
pub struct ReaderModel {
    pub nonce: Seq<u8>,
    pub pending: Seq<u8>,
}

/// The smaller of two counts.
pub open spec fn min_nat(a: nat, b: nat) -> nat {
    if a < b {
        a
    } else {
        b
    }
}

/// A read of at most `size` bytes served from the pending cleartext.
pub open spec fn take_step(r: ReaderModel, size: nat) -> (ReaderModel, Seq<u8>) {
    let n = min_nat(r.pending.len(), size);
    (ReaderModel { pending: r.pending.skip(n as int), ..r }, r.pending.take(n as int))
}

/// A read of at most `size` bytes that opens a frame's ciphertext under the
/// read nonce: the cleartext's first bytes are handed out, the rest kept
/// pending, and the nonce moves on; `None` where the ciphertext does not open.
pub open spec fn open_step(r: ReaderModel, key: Seq<u8>, ciphertext: Seq<u8>, size: nat) -> Option<
    (ReaderModel, Seq<u8>),
> {
    match secretbox_open(ciphertext, r.nonce, key) {
        None => None,
        Some(m) => {
            let n = min_nat(m.len(), size);
            Some((ReaderModel { nonce: increment_le(r.nonce), pending: m.skip(n as int) }, m.take(n as int)))
        },
    }
}

/// The frame's header announces its ciphertext's length, within a reader's limit.
pub open spec fn frame_header_ok(header: Seq<u8>, ciphertext: Seq<u8>) -> bool {
    &&& header.len() == 4
    &&& be_value(header) <= READ_BUF_LEN
    &&& be_value(header) == ciphertext.len()
}

/// The frame is what a writer with key `key` and write nonce `nonce` makes
/// of `msg`: the ciphertext sealed under them, sixteen bytes longer, opening
/// back to the message, and a header with its length cut to 32 bits.
pub open spec fn sealed_frame(
    header: Seq<u8>,
    ciphertext: Seq<u8>,
    msg: Seq<u8>,
    nonce: Seq<u8>,
    key: Seq<u8>,
) -> bool {
    &&& ciphertext == secretbox_seal(msg, nonce, key)
    &&& ciphertext.len() == msg.len() + MAC_BYTES
    &&& secretbox_open(ciphertext, nonce, key) == Some(msg)
    &&& header == be_bytes(low32(ciphertext.len()))
}

/// The reading state of a channel.
pub open spec fn reader_of(c: SecretChannel) -> ReaderModel {
    ReaderModel { nonce: c.read_nonce_bytes(), pending: c.pending() }
}

/// A sealed message as it goes on the stream: the length header, then the
/// ciphertext.
pub struct SealedFrame {
    pub header: [u8; 4],
    pub ciphertext: Vec<u8>,
}

/// Why a frame could not be read.
#[derive(Clone, Copy, Debug, PartialEq, Eq)]
pub enum ChannelError {
    /// The header announces a ciphertext longer than a reader accepts.
    MessageTooBig(u32),
    /// The ciphertext did not verify under the key and the read nonce.
    DecryptFailed,
}

/// The text of "Message too big (" and of ")".
pub open spec fn too_big_text(n: nat) -> Seq<char> {
    "Message too big ("@ + latin1(digits(n, 10)) + ")"@
}

impl ChannelError {
    /// The error message.
    pub fn message(&self) -> (s: String)
        ensures
            *self matches ChannelError::MessageTooBig(n) ==> s@ == too_big_text(n as nat),
            *self is DecryptFailed ==> s@
                == "Failed to decrypt message (could mean corruption or malicious attack"@,
    {
        match self {
            ChannelError::MessageTooBig(n) => {
                let mut s = String::from_str("Message too big (");
                let mut d: Vec<u8> = Vec::new();
                crate::numeral::push_digits(&mut d, *n as u64, 10);
                push_latin1(&mut s, d.as_slice());
                s.append(")");
                s
            },
            ChannelError::DecryptFailed => String::from_str(
                "Failed to decrypt message (could mean corruption or malicious attack",
            ),
        }
    }
}

/// The ciphertext length that a frame header announces, or
/// `MessageTooBig` where it is more than a reader accepts.
pub fn frame_length(header: &[u8; 4]) -> (r: Result<usize, ChannelError>)
    ensures
        be_value(header@) <= READ_BUF_LEN ==> r == Ok::<usize, ChannelError>(
            be_value(header@) as usize,
        ),
        be_value(header@) > READ_BUF_LEN ==> r == Err::<usize, ChannelError>(
            ChannelError::MessageTooBig(be_value(header@) as u32),
        ),
        r matches Ok(l) ==> forall|c: Seq<u8>| c.len() == l ==> #[trigger] frame_header_ok(
            header@,
            c,
        ),
{
    let len: u64 = (header[0] as u64) * 16777216 + (header[1] as u64) * 65536 + (header[2] as u64)
        * 256 + (header[3] as u64);
    if len > READ_BUF_LEN as u64 {
        Err(ChannelError::MessageTooBig(len as u32))
    } else {
        Ok(len as usize)
    }
}

/// The state of one end of an encrypted stream: the key, the nonce of the
/// next frame read and of the next frame written, and the cleartext that was
/// opened but not yet taken by a reader.
pub struct SecretChannel {
    read_nonce: Nonce,
    write_nonce: Nonce,
    key: Key,
    read_buf: Vec<u8>,
    read_buf_offset: usize,
    read_buf_len: usize,
}

impl SecretChannel {
    /// The bytes of the key.
    pub closed spec fn key_bytes(&self) -> Seq<u8> {
        self.key.0@
    }

    /// The bytes of the nonce that the next frame read is opened with.
    pub closed spec fn read_nonce_bytes(&self) -> Seq<u8> {
        self.read_nonce.0@
    }

    /// The bytes of the nonce that the next frame written is sealed with.
    pub closed spec fn write_nonce_bytes(&self) -> Seq<u8> {
        self.write_nonce.0@
    }

    /// The key.
    pub fn key(&self) -> (k: Key)
        ensures
            k.0@ == self.key_bytes(),
    {
        self.key
    }

    /// The nonce that the next frame read is opened with.
    pub fn read_nonce(&self) -> (n: Nonce)
        ensures
            n.0@ == self.read_nonce_bytes(),
    {
        self.read_nonce
    }

    /// The nonce that the next frame written is sealed with.
    pub fn write_nonce(&self) -> (n: Nonce)
        ensures
            n.0@ == self.write_nonce_bytes(),
    {
        self.write_nonce
    }

    /// Replaces the key.
    pub fn set_key(&mut self, key: Key)
        requires
            old(self).wf(),
        ensures
            final(self).wf(),
            final(self).key_bytes() == key.0@,
            final(self).read_nonce_bytes() == old(self).read_nonce_bytes(),
            final(self).write_nonce_bytes() == old(self).write_nonce_bytes(),
            final(self).pending() == old(self).pending(),
    {
        self.key = key;
    }

    /// Replaces the nonce that the next frame read is opened with.
    pub fn set_read_nonce(&mut self, nonce: Nonce)
        requires
            old(self).wf(),
        ensures
            final(self).wf(),
            final(self).key_bytes() == old(self).key_bytes(),
            final(self).read_nonce_bytes() == nonce.0@,
            final(self).write_nonce_bytes() == old(self).write_nonce_bytes(),
            final(self).pending() == old(self).pending(),
    {
        self.read_nonce = nonce;
    }

    /// Replaces the nonce that the next frame written is sealed with.
    pub fn set_write_nonce(&mut self, nonce: Nonce)
        requires
            old(self).wf(),
        ensures
            final(self).wf(),
            final(self).key_bytes() == old(self).key_bytes(),
            final(self).read_nonce_bytes() == old(self).read_nonce_bytes(),
            final(self).write_nonce_bytes() == nonce.0@,
            final(self).pending() == old(self).pending(),
    {
        self.write_nonce = nonce;
    }

    /// The buffer bounds are consistent.
    pub closed spec fn wf(&self) -> bool {
        self.read_buf_offset + self.read_buf_len <= self.read_buf@.len()
    }

    /// The cleartext opened but not yet handed to a reader.
    pub closed spec fn pending(&self) -> Seq<u8> {
        self.read_buf@.subrange(
            self.read_buf_offset as int,
            self.read_buf_offset + self.read_buf_len,
        )
    }

    /// A channel with a fresh random key and random nonces, nothing pending.
    pub fn new() -> (c: SecretChannel)
        ensures
            c.wf(),
            c.pending() == Seq::<u8>::empty(),
    {
        let read_nonce = sodium_gen_nonce();
        let write_nonce = sodium_gen_nonce();
        let key = sodium_gen_key();
        let c = SecretChannel {
            read_nonce,
            write_nonce,
            key,
            read_buf: Vec::new(),
            read_buf_offset: 0,
            read_buf_len: 0,
        };
        assert(c.pending() =~= Seq::<u8>::empty());
        c
    }

    /// Hands out up to `max` bytes of the pending cleartext, in order, where
    /// any is pending; `None` (and no change) where none is.
    pub fn take_buffered(&mut self, max: usize) -> (r: Option<Vec<u8>>)
        requires
            old(self).wf(),
        ensures
            final(self).wf(),
            final(self).key_bytes() == old(self).key_bytes(),
            final(self).read_nonce_bytes() == old(self).read_nonce_bytes(),
            final(self).write_nonce_bytes() == old(self).write_nonce_bytes(),
            old(self).pending().len() == 0 ==> r is None && final(self).pending()
                == old(self).pending(),
            old(self).pending().len() > 0 ==> ({
                let n = if old(self).pending().len() < max {
                    old(self).pending().len() as int
                } else {
                    max as int
                };
                &&& r matches Some(out) && out@ == old(self).pending().take(n)
                &&& final(self).pending() == old(self).pending().skip(n)
            }),
            old(self).pending().len() > 0 ==> (r matches Some(out) && (reader_of(*final(self)), out@)
                == take_step(reader_of(*old(self)), max as nat)),
    {
        if self.read_buf_len == 0 {
            return None;
        }
        let rlen = if self.read_buf_len < max {
            self.read_buf_len
        } else {
            max
        };
        let start = self.read_buf_offset;
        let blen = self.read_buf.len();
        assert(start + rlen <= blen);
        let mut out: Vec<u8> = Vec::new();
        let mut i: usize = 0;
        while i < rlen
            invariant
                i <= rlen,
                rlen <= self.read_buf_len,
                start == self.read_buf_offset,
                start + rlen <= blen,
                blen == self.read_buf@.len(),
                self.wf(),
                out@ == self.read_buf@.subrange(start as int, start + i),
            decreases rlen - i,
        {
            out.push(self.read_buf[start + i]);
            assert(self.read_buf@.subrange(start as int, start + i + 1) == self.read_buf@.subrange(
                start as int,
                start + i,
            ).push(self.read_buf@[start + i]));
            i += 1;
        }
        self.read_buf_offset = start + rlen;
        self.read_buf_len = self.read_buf_len - rlen;
        assert(out@ =~= old(self).pending().take(rlen as int));
        assert(self.pending() =~= old(self).pending().skip(rlen as int));
        Some(out)
    }

    /// Opens the ciphertext of a frame whose header announced its length,
    /// with the key and the read nonce; then moves the read nonce on. Hands
    /// out up to `max` bytes of the cleartext and keeps the rest pending.
    /// Where the ciphertext does not verify, nothing changes.
    pub fn open_frame(&mut self, ciphertext: &[u8], max: usize) -> (r: Result<
        Vec<u8>,
        ChannelError,
    >)
        requires
            old(self).wf(),
            old(self).pending().len() == 0,
        ensures
            final(self).wf(),
            final(self).key_bytes() == old(self).key_bytes(),
            final(self).write_nonce_bytes() == old(self).write_nonce_bytes(),
            match secretbox_open(ciphertext@, old(self).read_nonce_bytes(), old(self).key_bytes()) {
                None => {
                    &&& r == Err::<Vec<u8>, ChannelError>(ChannelError::DecryptFailed)
                    &&& final(self).read_nonce_bytes() == old(self).read_nonce_bytes()
                    &&& final(self).pending() == old(self).pending()
                },
                Some(m) => {
                    let n = if m.len() < max {
                        m.len() as int
                    } else {
                        max as int
                    };
                    &&& r matches Ok(out) && out@ == m.take(n)
                    &&& final(self).pending() == m.skip(n)
                    &&& final(self).read_nonce_bytes() == increment_le(old(self).read_nonce_bytes())
                },
            },
            match open_step(reader_of(*old(self)), old(self).key_bytes(), ciphertext@, max as nat) {
                None => r is Err && reader_of(*final(self)) == reader_of(*old(self)),
                Some((t, out)) => r matches Ok(o) && o@ == out && reader_of(*final(self)) == t,
            },
            forall|n0: Seq<u8>, k: nat|
                old(self).read_nonce_bytes() == #[trigger] nonce_after(n0, k) ==> (r is Ok
                    ==> final(self).read_nonce_bytes() == nonce_after(n0, k + 1)) && (r is Err
                    ==> final(self).read_nonce_bytes() == nonce_after(n0, k)),
    {
        let cleartext = match sodium_open(ciphertext, &self.read_nonce, &self.key) {
            Some(c) => c,
            None => {
                return Err(ChannelError::DecryptFailed);
            },
        };
        self.read_nonce.increment_le_inplace();
        let clen = cleartext.len();
        if clen > max {
            let mut out: Vec<u8> = Vec::new();
            let mut i: usize = 0;
            while i < max
                invariant
                    i <= max,
                    max < clen,
                    clen == cleartext@.len(),
                    out@ == cleartext@.take(i as int),
                decreases max - i,
            {
                out.push(cleartext[i]);
                assert(cleartext@.take(i + 1) == cleartext@.take(i as int).push(cleartext@[i as int]));
                i += 1;
            }
            self.read_buf = cleartext;
            self.read_buf_offset = max;
            self.read_buf_len = clen - max;
            assert(self.pending() =~= self.read_buf@.skip(max as int));
            Ok(out)
        } else {
            assert(cleartext@.take(clen as int) =~= cleartext@);
            assert(self.pending() =~= cleartext@.skip(clen as int));
            Ok(cleartext)
        }
    }

    /// Seals `msg` with the key and the write nonce, as one frame: the
    /// ciphertext and a header holding its length in big-endian bytes (cut to
    /// 32 bits). The write nonce moves on only with `commit_write`.
    pub fn seal_frame(&self, msg: &[u8]) -> (f: SealedFrame)
        requires
            msg@.len() < u32::MAX,
            msg@.len() + MAC_BYTES <= usize::MAX,
        ensures
            f.ciphertext@ == secretbox_seal(msg@, self.write_nonce_bytes(), self.key_bytes()),
            f.ciphertext@.len() == msg@.len() + MAC_BYTES,
            secretbox_open(f.ciphertext@, self.write_nonce_bytes(), self.key_bytes()) == Some(msg@),
            f.header@ == be_bytes(low32(f.ciphertext@.len())),
            sealed_frame(f.header@, f.ciphertext@, msg@, self.write_nonce_bytes(), self.key_bytes()),
    {
        let ciphertext = sodium_seal(msg, &self.write_nonce, &self.key);
        let len = (ciphertext.len() as u64 % 4294967296) as u32;
        let header = u32_to_be(len);
        SealedFrame { header, ciphertext }
    }

    /// Moves the write nonce on, once a frame's header has gone out.
    pub fn commit_write(&mut self)
        requires
            old(self).wf(),
        ensures
            final(self).wf(),
            final(self).key_bytes() == old(self).key_bytes(),
            final(self).read_nonce_bytes() == old(self).read_nonce_bytes(),
            final(self).pending() == old(self).pending(),
            final(self).write_nonce_bytes() == increment_le(old(self).write_nonce_bytes()),
            forall|n0: Seq<u8>, k: nat|
                old(self).write_nonce_bytes() == #[trigger] nonce_after(n0, k)
                    ==> final(self).write_nonce_bytes() == nonce_after(n0, k + 1),
    {
        self.write_nonce.increment_le_inplace();
    }
}

} // verus!
