//! What holds of an encrypted stream over many frames: the nonces a writer
//! seals with never repeat, and a reader that shares the key and starts at
//! the writer's nonce gets back every message, in order, with nothing lost
//! or doubled, its read nonce moving on once per frame it opens.
use vstd::prelude::*;
use vstd::arithmetic::div_mod::{lemma_fundamental_div_mod, lemma_fundamental_div_mod_converse};
use crate::crypto::{be_value, frame_header_ok, increment_le, lemma_be_round_trip, low32, min_nat,
    open_step, sealed_frame, secretbox_open, take_step, ReaderModel, READ_BUF_LEN};

verus! {

/// The value of bytes taken as an unsigned little-endian number.
pub open spec fn le_value(s: Seq<u8>) -> nat
    decreases s.len(),
{
    if s.len() == 0 {
        0
    } else {
        s[0] as nat + 256 * le_value(s.drop_first())
    }
}

/// 256 to the power `n`: how many values `n` bytes hold.
pub open spec fn byte_power(n: nat) -> nat
    decreases n,
{
    if n == 0 {
        1
    } else {
        256 * byte_power((n - 1) as nat)
    }
}

/// The nonce after `k` increments of `n`: the nonce of the `k`-th frame
/// (counting from zero) of a stream that starts at `n`.
pub open spec fn nonce_after(n: Seq<u8>, k: nat) -> Seq<u8>
    decreases k,
{
    if k == 0 {
        n
    } else {
        increment_le(nonce_after(n, (k - 1) as nat))
    }
}

/// Bytes hold a value below 256 to the power of their count.
pub proof fn lemma_le_value_bound(s: Seq<u8>)
    ensures
        le_value(s) < byte_power(s.len()),
    decreases s.len(),
{
    if s.len() > 0 {
        lemma_le_value_bound(s.drop_first());
    }
}

/// Incrementing adds one to the value, and wraps to zero at the top.
pub proof fn lemma_increment_value(s: Seq<u8>)
    ensures
        increment_le(s).len() == s.len(),
        le_value(s) + 1 < byte_power(s.len()) ==> le_value(increment_le(s)) == le_value(s) + 1,
        le_value(s) + 1 >= byte_power(s.len()) ==> le_value(increment_le(s)) == 0,
    decreases s.len(),
{
    lemma_le_value_bound(s);
    if s.len() > 0 {
        let rest = s.drop_first();
        lemma_le_value_bound(rest);
        if s[0] == 255 {
            lemma_increment_value(rest);
            let t = increment_le(s);
            assert(t == seq![0u8] + increment_le(rest));
            assert(t.drop_first() =~= increment_le(rest));
            assert(t[0] == 0);
        } else {
            let t = increment_le(s);
            assert(t.drop_first() =~= rest);
            assert(t[0] == s[0] + 1);
        }
    }
}

/// The `k`-th nonce is the first one plus `k`, modulo the count of values.
pub proof fn lemma_nonce_after_value(n: Seq<u8>, k: nat)
    ensures
        nonce_after(n, k).len() == n.len(),
        le_value(nonce_after(n, k)) == ((le_value(n) + k) as int) % (byte_power(n.len()) as int),
    decreases k,
{
    let p = byte_power(n.len()) as int;
    lemma_le_value_bound(n);
    if k == 0 {
        lemma_fundamental_div_mod_converse(le_value(n) as int, p, 0, le_value(n) as int);
    } else {
        let prev = nonce_after(n, (k - 1) as nat);
        lemma_nonce_after_value(n, (k - 1) as nat);
        lemma_increment_value(prev);
        let a = le_value(n) + k - 1;
        let x = le_value(prev) as int;
        lemma_fundamental_div_mod(a, p);
        let q = a / p;
        assert(a == q * p + x) by (nonlinear_arith)
            requires
                a == p * (a / p) + a % p,
                q == a / p,
                x == a % p,
        ;
        if x + 1 < p {
            lemma_fundamental_div_mod_converse(a + 1, p, q, x + 1);
        } else {
            assert(a + 1 == (q + 1) * p + 0) by (nonlinear_arith)
                requires
                    a == q * p + x,
                    x + 1 == p,
            ;
            lemma_fundamental_div_mod_converse(a + 1, p, q + 1, 0);
        }
    }
}

/// Starting from the increment of a nonce is starting one frame later.
pub proof fn lemma_nonce_after_shift(n: Seq<u8>, k: nat)
    ensures
        nonce_after(increment_le(n), k) == nonce_after(n, k + 1),
    decreases k,
{
    assert(nonce_after(n, 0) == n);
    assert(nonce_after(n, k + 1) == increment_le(nonce_after(n, k)));
    if k > 0 {
        lemma_nonce_after_shift(n, (k - 1) as nat);
        assert(nonce_after(increment_le(n), k) == increment_le(
            nonce_after(increment_le(n), (k - 1) as nat),
        ));
    }
}

/// A writer never seals two frames with one nonce: of fewer frames than
/// the nonce's bytes have values, any two sealed after `j` and after `k`
/// increments of the first nonce (`j < k`) use different nonces.
pub proof fn lemma_write_nonces_distinct(n: Seq<u8>, j: nat, k: nat)
    requires
        j < k < byte_power(n.len()),
    ensures
        nonce_after(n, j) != nonce_after(n, k),
{
    let p = byte_power(n.len()) as int;
    lemma_nonce_after_value(n, j);
    lemma_nonce_after_value(n, k);
    let a = (le_value(n) + j) as int;
    let b = (le_value(n) + k) as int;
    if nonce_after(n, j) == nonce_after(n, k) {
        lemma_fundamental_div_mod(a, p);
        lemma_fundamental_div_mod(b, p);
        let d = b / p - a / p;
        assert(b - a == d * p) by (nonlinear_arith)
            requires
                a == p * (a / p) + a % p,
                b == p * (b / p) + b % p,
                a % p == b % p,
                d == b / p - a / p,
        ;
        assert(false) by (nonlinear_arith)
            requires
                b - a == d * p,
                0 < b - a < p,
        ;
    }
}

/// Reads of at most `sizes[0]`, `sizes[1]`, ... bytes by a reader with key
/// `key`, off a stream of frames (a length header and a ciphertext each),
/// as a channel carries out each read: pending cleartext first
/// (`take_step`, which `take_buffered` ensures it does); else the next
/// frame, whose header must announce its ciphertext's length within the
/// limit (`frame_header_ok`, which `frame_length` ensures of what it
/// accepts) and whose ciphertext must open under the read nonce
/// (`open_step`, which `open_frame` ensures it does). Gives the
/// reader's state at the end, the bytes handed out, and how many frames
/// were opened; the reads stop where there is no frame left or one fails.
pub open spec fn read_run(
    r: ReaderModel,
    key: Seq<u8>,
    frames: Seq<(Seq<u8>, Seq<u8>)>,
    sizes: Seq<nat>,
) -> (ReaderModel, Seq<u8>, nat)
    decreases sizes.len(),
{
    if sizes.len() == 0 {
        (r, Seq::empty(), 0)
    } else if r.pending.len() > 0 {
        let (r1, first) = take_step(r, sizes[0]);
        let (t, out, used) = read_run(r1, key, frames, sizes.drop_first());
        (t, first + out, used)
    } else if frames.len() == 0 || !frame_header_ok(frames[0].0, frames[0].1) {
        (r, Seq::empty(), 0)
    } else {
        match open_step(r, key, frames[0].1, sizes[0]) {
            None => (r, Seq::empty(), 0),
            Some((r1, first)) => {
                let (t, out, used) = read_run(r1, key, frames.drop_first(), sizes.drop_first());
                (t, first + out, used + 1)
            },
        }
    }
}

/// The frames are those a writer with key `key` makes of the messages,
/// starting at nonce `n`: the `i`-th is what `seal_frame` makes of the
/// `i`-th message under the `i`-th nonce (`sealed_frame`), and each
/// ciphertext fits a reader's limit.
pub open spec fn frames_of(
    frames: Seq<(Seq<u8>, Seq<u8>)>,
    msgs: Seq<Seq<u8>>,
    n: Seq<u8>,
    key: Seq<u8>,
) -> bool {
    &&& frames.len() == msgs.len()
    &&& forall|i: int|
        0 <= i < frames.len() ==> {
            &&& sealed_frame(
                (#[trigger] frames[i]).0,
                frames[i].1,
                msgs[i],
                nonce_after(n, i as nat),
                key,
            )
            &&& frames[i].1.len() <= READ_BUF_LEN
        }
}

/// A reader gets back what the writer sent: reading frames that a writer
/// made of some messages, with a key it shares and from the nonce the
/// writer started at, hands out the pending cleartext and then the
/// messages, in order, with nothing lost or doubled (what is not yet handed
/// out is still pending or in frames not yet opened); its read nonce has
/// moved on once per frame opened. Given at least one read per frame and
/// per byte, with room for a byte each, it opens every frame and hands out
/// every byte, and its read nonce then is the writer's write nonce.
pub proof fn lemma_reader_gets_frames(
    r: ReaderModel,
    key: Seq<u8>,
    frames: Seq<(Seq<u8>, Seq<u8>)>,
    msgs: Seq<Seq<u8>>,
    sizes: Seq<nat>,
)
    requires
        frames_of(frames, msgs, r.nonce, key),
        forall|i: int| 0 <= i < sizes.len() ==> #[trigger] sizes[i] >= 1,
    ensures
        ({
            let (t, out, used) = read_run(r, key, frames, sizes);
            &&& used <= frames.len()
            &&& out + t.pending + msgs.skip(used as int).flatten() == r.pending + msgs.flatten()
            &&& t.nonce == nonce_after(r.nonce, used)
            &&& sizes.len() >= frames.len() + r.pending.len() + msgs.flatten().len() ==> {
                &&& used == frames.len()
                &&& t.pending.len() == 0
                &&& out == r.pending + msgs.flatten()
                &&& t.nonce == nonce_after(r.nonce, msgs.len())
            }
        }),
    decreases sizes.len(),
{
    let (t, out, used) = read_run(r, key, frames, sizes);
    if sizes.len() == 0 {
        assert(msgs.skip(0) =~= msgs);
        assert(out + t.pending + msgs.flatten() =~= r.pending + msgs.flatten());
        if frames.len() + r.pending.len() + msgs.flatten().len() == 0 {
            assert(msgs.len() == 0);
        }
    } else if r.pending.len() > 0 {
        let n = min_nat(r.pending.len(), sizes[0]);
        let r1 = ReaderModel { pending: r.pending.skip(n as int), ..r };
        assert(take_step(r, sizes[0]) == (r1, r.pending.take(n as int)));
        let rest = sizes.drop_first();
        assert forall|i: int| 0 <= i < rest.len() implies #[trigger] rest[i] >= 1 by {
            assert(rest[i] == sizes[i + 1]);
        }
        lemma_reader_gets_frames(r1, key, frames, msgs, rest);
        let (t1, out1, used1) = read_run(r1, key, frames, rest);
        assert(t == t1 && used == used1);
        assert(out == r.pending.take(n as int) + out1);
        assert(r.pending =~= r.pending.take(n as int) + r.pending.skip(n as int));
        assert(out + t.pending + msgs.skip(used as int).flatten() =~= r.pending.take(n as int) + (
        out1 + t1.pending + msgs.skip(used1 as int).flatten()));
        assert(r.pending + msgs.flatten() =~= r.pending.take(n as int) + (r1.pending
            + msgs.flatten()));
    } else if frames.len() == 0 {
        assert(msgs.len() == 0);
        assert(msgs.skip(0) =~= msgs);
        assert(out + t.pending + msgs.skip(used as int).flatten() =~= r.pending + msgs.flatten());
    } else {
        let (header, ciphertext) = frames[0];
        assert(sealed_frame(header, ciphertext, msgs[0], nonce_after(r.nonce, 0), key));
        lemma_be_round_trip(low32(ciphertext.len()));
        assert(low32(ciphertext.len()) == ciphertext.len());
        assert(frame_header_ok(header, ciphertext));
        assert(secretbox_open(ciphertext, r.nonce, key) == Some(msgs[0]));
        let m = msgs[0];
        let n = min_nat(m.len(), sizes[0]);
        let r1 = ReaderModel { nonce: increment_le(r.nonce), pending: m.skip(n as int) };
        assert(open_step(r, key, ciphertext, sizes[0]) == Some((r1, m.take(n as int))));
        let rest = sizes.drop_first();
        let frames1 = frames.drop_first();
        let msgs1 = msgs.drop_first();
        assert forall|i: int| 0 <= i < rest.len() implies #[trigger] rest[i] >= 1 by {
            assert(rest[i] == sizes[i + 1]);
        }
        assert forall|i: int| 0 <= i < frames1.len() implies {
            &&& sealed_frame(
                (#[trigger] frames1[i]).0,
                frames1[i].1,
                msgs1[i],
                nonce_after(r1.nonce, i as nat),
                key,
            )
            &&& frames1[i].1.len() <= READ_BUF_LEN
        } by {
            assert(frames1[i] == frames[i + 1]);
            assert(msgs1[i] == msgs[i + 1]);
            lemma_nonce_after_shift(r.nonce, i as nat);
        }
        lemma_reader_gets_frames(r1, key, frames1, msgs1, rest);
        let (t1, out1, used1) = read_run(r1, key, frames1, rest);
        assert(t == t1 && used == used1 + 1);
        assert(out == m.take(n as int) + out1);
        lemma_nonce_after_shift(r.nonce, used1);
        assert(msgs.skip(used as int) =~= msgs1.skip(used1 as int));
        assert(msgs.flatten() == m + msgs1.flatten());
        assert(r.pending =~= Seq::<u8>::empty());
        assert(m =~= m.take(n as int) + m.skip(n as int));
        assert(out + t.pending + msgs.skip(used as int).flatten() =~= m.take(n as int) + (out1
            + t1.pending + msgs1.skip(used1 as int).flatten()));
        assert(r.pending + msgs.flatten() =~= m.take(n as int) + (r1.pending + msgs1.flatten()));
        if sizes.len() >= frames.len() + r.pending.len() + msgs.flatten().len() {
            assert(rest.len() >= frames1.len() + r1.pending.len() + msgs1.flatten().len());
            assert(msgs1.len() + 1 == msgs.len());
            lemma_nonce_after_shift(r.nonce, msgs1.len());
        }
    }
}

} // verus!
