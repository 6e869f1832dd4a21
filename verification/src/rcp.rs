//! The rcp wire format: the `C` header line that announces a file, the
//! one-byte replies, and reading a line off the stream.
use vstd::prelude::*;
use crate::numeral::{all_digits, digits, zero_padded, parse_unsigned, padded_digits, push_digits,
    parse_unsigned_bytes, lemma_parse_padded_digits};
use crate::text::{latin1, push_latin1};

verus! {

/// The byte of the line terminator `'\n'`.
pub const NEWLINE: u8 = 10;

/// The byte of `' '`, which separates the fields of a header line.
pub const SPACE: u8 = 32;

/// The byte that opens a header announcing one regular file (`'C'`).
pub const COPY_MARK: u8 = 67;

/// The reply byte meaning success.
pub const REPLY_OK: u8 = 0;

/// The byte, taken as a character, is white space as `char::is_whitespace`
/// of std has it (for the characters below 256: tab to carriage return,
/// space, next line and no-break space).
pub open spec fn is_space(b: u8) -> bool {
    (9 <= b && b <= 13) || b == 32 || b == 133 || b == 160
}

/// Whether `b` is white space in the sense of [`is_space`].
pub fn is_space_byte(b: u8) -> (r: bool)
    ensures
        r == is_space(b),
{
    (9 <= b && b <= 13) || b == 32 || b == 133 || b == 160
}

/// The maximal runs of bytes that are not white space, in order: what
/// `split_whitespace` of std gives on the characters that the bytes decode to.
pub open spec fn words(s: Seq<u8>) -> Seq<Seq<u8>>
    decreases s.len(),
{
    if s.len() == 0 {
        Seq::empty()
    } else {
        let w = words(s.drop_last());
        let c = s.last();
        if is_space(c) {
            w
        } else if s.len() >= 2 && !is_space(s[s.len() - 2]) && w.len() > 0 {
            w.update(w.len() - 1, w.last().push(c))
        } else {
            w.push(seq![c])
        }
    }
}

/// The words so far, with the word under way (if any) at the end.
pub open spec fn words_so_far(done: Seq<Seq<u8>>, cur: Seq<u8>) -> Seq<Seq<u8>> {
    if cur.len() > 0 {
        done.push(cur)
    } else {
        done
    }
}

/// The views of a vector of byte vectors.
pub open spec fn views(v: Seq<Vec<u8>>) -> Seq<Seq<u8>> {
    v.map_values(|x: Vec<u8>| x@)
}

/// Splits `s` at white space, dropping empty pieces.
pub fn split_words(s: &[u8]) -> (r: Vec<Vec<u8>>)
    ensures
        views(r@) == words(s@),
{
    let mut done: Vec<Vec<u8>> = Vec::new();
    let mut cur: Vec<u8> = Vec::new();
    let mut i: usize = 0;
    assert(s@.take(0) =~= Seq::<u8>::empty());
    assert(views(done@) =~= Seq::<Seq<u8>>::empty());
    while i < s.len()
        invariant
            i <= s.len(),
            cur@.len() > 0 <==> (i > 0 && !is_space(s@[i - 1])),
            words_so_far(views(done@), cur@) == words(s@.take(i as int)),
        decreases s.len() - i,
    {
        let c = s[i];
        let ghost t = s@.take(i + 1);
        assert(t.drop_last() == s@.take(i as int));
        assert(t.last() == c);
        if is_space_byte(c) {
            assert(words(t) == words(s@.take(i as int)));
            if cur.len() > 0 {
                let ghost old_done = views(done@);
                let ghost old_cur = cur@;
                done.push(cur);
                cur = Vec::new();
                assert(views(done@) =~= old_done.push(old_cur));
            }
        } else {
            let ghost old_cur = cur@;
            let ghost w = words(s@.take(i as int));
            proof {
                if cur@.len() > 0 {
                    assert(t[t.len() - 2] == s@[i - 1]);
                    assert(w == views(done@).push(old_cur));
                    assert(words(t) == w.update(w.len() - 1, w.last().push(c)));
                } else {
                    assert(words(t) == w.push(seq![c]));
                }
            }
            cur.push(c);
            assert(cur@ == old_cur.push(c));
            proof {
                if old_cur.len() > 0 {
                    assert(views(done@).push(old_cur).update(w.len() - 1, old_cur.push(c)) =~= views(
                        done@,
                    ).push(cur@));
                } else {
                    assert(cur@ =~= seq![c]);
                }
            }
        }
        i += 1;
    }
    assert(s@.take(s@.len() as int) == s@);
    if cur.len() > 0 {
        let ghost old_done = views(done@);
        let ghost old_cur = cur@;
        done.push(cur);
        assert(views(done@) =~= old_done.push(old_cur));
    }
    done
}

/// A run of bytes with no white space is one word.
pub proof fn lemma_words_single(a: Seq<u8>)
    requires
        a.len() > 0,
        forall|i: int| 0 <= i < a.len() ==> !is_space(#[trigger] a[i]),
    ensures
        words(a) == seq![a],
    decreases a.len(),
{
    if a.len() == 1 {
        assert(a.drop_last() =~= Seq::<u8>::empty());
        assert(words(a.drop_last()) =~= Seq::<Seq<u8>>::empty());
        assert(a =~= seq![a[0]]);
        assert(words(a) == Seq::<Seq<u8>>::empty().push(seq![a.last()]));
        assert(Seq::<Seq<u8>>::empty().push(seq![a.last()]) =~= seq![a]);
    } else {
        let p = a.drop_last();
        lemma_words_single(p);
        assert(a[a.len() - 2] == p.last());
        assert(p.push(a.last()) =~= a);
        assert(!is_space(a.last()));
        assert(!is_space(a[a.len() - 2]));
        assert(seq![p].update(0, p.push(a.last())) =~= seq![a]);
    }
}

/// Text ending in white space splits apart from what follows it.
pub proof fn lemma_words_split(p: Seq<u8>, t: Seq<u8>)
    requires
        p.len() > 0,
        is_space(p.last()),
    ensures
        words(p + t) == words(p) + words(t),
    decreases t.len(),
{
    if t.len() == 0 {
        assert(p + t =~= p);
        assert(words(p) + words(t) =~= words(p));
    } else {
        let q = p + t.drop_last();
        lemma_words_split(p, t.drop_last());
        assert((p + t).drop_last() =~= q);
        assert((p + t).last() == t.last());
        let c = t.last();
        if !is_space(c) {
            let prev_space_in_t = t.len() >= 2 && !is_space(t[t.len() - 2]);
            if t.len() >= 2 {
                assert((p + t)[(p + t).len() - 2] == t[t.len() - 2]);
            } else {
                assert((p + t)[(p + t).len() - 2] == p.last());
            }
            if prev_space_in_t {
                lemma_words_nonempty(t.drop_last());
                assert(t.drop_last().last() == t[t.len() - 2]);
                let wp = words(p);
                let wt = words(t.drop_last());
                assert((wp + wt).update((wp + wt).len() - 1, (wp + wt).last().push(c)) =~= wp
                    + wt.update(wt.len() - 1, wt.last().push(c)));
            } else {
                assert((words(p) + words(t.drop_last())).push(seq![c]) =~= words(p) + words(
                    t.drop_last(),
                ).push(seq![c]));
            }
        }
    }
}

/// Text that ends in a byte that is not white space has at least one word.
pub proof fn lemma_words_nonempty(s: Seq<u8>)
    requires
        s.len() > 0,
        !is_space(s.last()),
    ensures
        words(s).len() > 0,
{
}

/// A `C` header: the file's permission bits, its length and its name.
#[derive(Debug)]
pub struct CopyHeader {
    pub mode: u32,
    pub length: usize,
    pub name: Vec<u8>,
}

/// Why a header line could not be read.
#[derive(Clone, Copy, Debug, PartialEq, Eq)]
pub enum HeaderError {
    /// The line does not hold exactly three fields; this many it holds.
    FieldCount(usize),
    /// The first field is not an octal number that fits in 32 bits.
    BadMode,
    /// The second field is not a decimal number that fits in a `usize`.
    BadLength,
}

/// The header line that announces a file, from its `'C'` to its `'\n'`:
/// the mode in octal, zero-padded to four digits, the length in decimal and
/// the name, separated by single spaces.
pub open spec fn copy_header_line(mode: u32, length: usize, name: Seq<u8>) -> Seq<u8> {
    seq![COPY_MARK] + zero_padded(digits(mode as nat, 8), 4) + seq![SPACE] + digits(
        length as nat,
        10,
    ) + seq![SPACE] + name + seq![NEWLINE]
}

/// What reading the fields of a header line (without its `'C'` and its
/// `'\n'`) gives: three white-space separated fields, an octal mode that
/// fits in 32 bits, a decimal length that fits in a `usize`, and a name.
pub open spec fn header_fields(line: Seq<u8>) -> Result<(u32, usize, Seq<u8>), HeaderError> {
    let w = words(line);
    if w.len() != 3 {
        Err(HeaderError::FieldCount(w.len() as usize))
    } else if parse_unsigned(w[0], 8, u32::MAX as nat) is None {
        Err(HeaderError::BadMode)
    } else if parse_unsigned(w[1], 10, usize::MAX as nat) is None {
        Err(HeaderError::BadLength)
    } else {
        Ok(
            (
                parse_unsigned(w[0], 8, u32::MAX as nat)->0 as u32,
                parse_unsigned(w[1], 10, usize::MAX as nat)->0 as usize,
                w[2],
            ),
        )
    }
}

/// Renders the header line that announces a file of permission bits `mode`,
/// `length` bytes and name `name`, terminator included.
pub fn format_copy_header(mode: u32, length: usize, name: &[u8]) -> (line: Vec<u8>)
    ensures
        line@ == copy_header_line(mode, length, name@),
{
    let mut line: Vec<u8> = Vec::new();
    line.push(COPY_MARK);
    let m = padded_digits(mode as u64, 8, 4);
    let mut i: usize = 0;
    while i < m.len()
        invariant
            i <= m.len(),
            line@ == seq![COPY_MARK] + m@.take(i as int),
        decreases m.len() - i,
    {
        line.push(m[i]);
        assert(m@.take(i + 1) == m@.take(i as int).push(m@[i as int]));
        i += 1;
    }
    assert(m@.take(m@.len() as int) == m@);
    line.push(SPACE);
    push_digits(&mut line, length as u64, 10);
    line.push(SPACE);
    let ghost before = line@;
    let mut j: usize = 0;
    while j < name.len()
        invariant
            j <= name.len(),
            line@ == before + name@.take(j as int),
        decreases name.len() - j,
    {
        line.push(name[j]);
        assert(name@.take(j + 1) == name@.take(j as int).push(name@[j as int]));
        j += 1;
    }
    assert(name@.take(name@.len() as int) == name@);
    line.push(NEWLINE);
    line
}

/// Reads the fields of a header line, given without its `'C'` and its `'\n'`.
pub fn parse_copy_header(line: &[u8]) -> (r: Result<CopyHeader, HeaderError>)
    ensures
        match r {
            Ok(h) => header_fields(line@) == Ok::<(u32, usize, Seq<u8>), HeaderError>(
                (h.mode, h.length, h.name@),
            ),
            Err(e) => header_fields(line@) == Err::<(u32, usize, Seq<u8>), HeaderError>(e),
        },
{
    let mut w = split_words(line);
    assert(views(w@).len() == w@.len());
    if w.len() != 3 {
        return Err(HeaderError::FieldCount(w.len()));
    }
    assert(views(w@)[0] == w@[0]@);
    assert(views(w@)[1] == w@[1]@);
    assert(views(w@)[2] == w@[2]@);
    let mode = match parse_unsigned_bytes(w[0].as_slice(), 8, u32::MAX as u64) {
        Some(v) => v as u32,
        None => {
            return Err(HeaderError::BadMode);
        },
    };
    let length = match parse_unsigned_bytes(w[1].as_slice(), 10, usize::MAX as u64) {
        Some(v) => v as usize,
        None => {
            return Err(HeaderError::BadLength);
        },
    };
    let name = match w.pop() {
        Some(n) => n,
        None => Vec::new(),
    };
    Ok(CopyHeader { mode, length, name })
}

/// Reading back a header line gives what was written, when the name is not
/// empty and holds no white space.
pub proof fn lemma_header_round_trip(mode: u32, length: usize, name: Seq<u8>)
    requires
        name.len() > 0,
        forall|i: int| 0 <= i < name.len() ==> !is_space(#[trigger] name[i]),
    ensures
        ({
            let line = copy_header_line(mode, length, name);
            &&& header_fields(line.subrange(1, line.len() - 1)) == Ok::<
                (u32, usize, Seq<u8>),
                HeaderError,
            >((mode, length, name))
            &&& forall|i: int| 0 <= i < line.len() - 1 ==> line[i] != NEWLINE
        }),
{
    let m = zero_padded(digits(mode as nat, 8), 4);
    let l = digits(length as nat, 10);
    let line = copy_header_line(mode, length, name);
    let fields = m + seq![SPACE] + l + seq![SPACE] + name;
    assert(line.subrange(1, line.len() - 1) =~= fields);
    lemma_parse_padded_digits(mode as nat, 8, 4, u32::MAX as nat);
    lemma_parse_padded_digits(length as nat, 10, 0, usize::MAX as nat);
    crate::numeral::lemma_digits_denote(mode as nat, 8);
    crate::numeral::lemma_digits_denote(length as nat, 10);
    assert(zero_padded(l, 0) == l);
    assert forall|i: int| 0 <= i < m.len() implies !is_space(#[trigger] m[i]) by {
        if digits(mode as nat, 8).len() < 4 {
            let k = 4 - digits(mode as nat, 8).len();
            if i >= k {
                assert(m[i] == digits(mode as nat, 8)[i - k]);
            }
        }
    }
    assert forall|i: int| 0 <= i < l.len() implies !is_space(#[trigger] l[i]) by {
        assert(crate::numeral::is_digit(l[i], 10));
    }
    lemma_words_single(m);
    lemma_words_single(l);
    lemma_words_single(name);
    let p1 = m + seq![SPACE];
    lemma_words_split(p1, l + seq![SPACE] + name);
    assert(p1 + (l + seq![SPACE] + name) =~= fields);
    assert(words(p1) == words(m)) by {
        assert(p1.drop_last() =~= m);
    }
    let p3 = l + seq![SPACE];
    lemma_words_split(p3, name);
    assert(words(p3) == words(l)) by {
        assert(p3.drop_last() =~= l);
    }
    assert(l + seq![SPACE] + name =~= p3 + name);
    assert(words(fields) =~= seq![m, l, name]);
    assert forall|i: int| 0 <= i < line.len() - 1 implies line[i] != NEWLINE by {
        if i >= 1 {
            assert(line[i] == fields[i - 1]);
            let j = i - 1;
            if j < m.len() {
                assert(fields[j] == m[j]);
                assert(!is_space(m[j]));
            } else if j == m.len() {
                assert(fields[j] == SPACE);
            } else if j < m.len() + 1 + l.len() {
                assert(fields[j] == l[j - m.len() - 1]);
                assert(!is_space(l[j - m.len() - 1]));
            } else if j == m.len() + 1 + l.len() {
                assert(fields[j] == SPACE);
            } else {
                assert(fields[j] == name[j - m.len() - 2 - l.len()]);
                assert(!is_space(name[j - m.len() - 2 - l.len()]));
            }
        }
    }
}

/// The header line announces the whole name, whatever it holds: it is
/// `'C'`, a field of at least four octal digits that reads back as the
/// mode, a space, a field of decimal digits that reads back as the length,
/// a space, every byte of the name in order, and `'\n'`, and nothing else.
pub proof fn lemma_header_line_layout(mode: u32, length: usize, name: Seq<u8>)
    ensures
        ({
            let line = copy_header_line(mode, length, name);
            let m = zero_padded(digits(mode as nat, 8), 4);
            let l = digits(length as nat, 10);
            let a = 1 + m.len();
            let b = a + 1 + l.len();
            &&& m.len() >= 4
            &&& all_digits(m, 8)
            &&& all_digits(l, 10)
            &&& line.len() == 4 + m.len() + l.len() + name.len()
            &&& line[0] == COPY_MARK
            &&& parse_unsigned(line.subrange(1, a as int), 8, u32::MAX as nat) == Some(mode as nat)
            &&& line[a as int] == SPACE
            &&& parse_unsigned(line.subrange(a + 1 as int, b as int), 10, usize::MAX as nat) == Some(
                length as nat,
            )
            &&& line[b as int] == SPACE
            &&& line.subrange(b + 1 as int, line.len() - 1) == name
            &&& line[line.len() - 1] == NEWLINE
        }),
{
    let line = copy_header_line(mode, length, name);
    let d = digits(mode as nat, 8);
    let m = zero_padded(d, 4);
    let l = digits(length as nat, 10);
    let a = 1 + m.len();
    let b = a + 1 + l.len();
    lemma_parse_padded_digits(mode as nat, 8, 4, u32::MAX as nat);
    lemma_parse_padded_digits(length as nat, 10, 0, usize::MAX as nat);
    crate::numeral::lemma_digits_denote(mode as nat, 8);
    crate::numeral::lemma_digits_denote(length as nat, 10);
    assert(zero_padded(l, 0) == l);
    if d.len() < 4 {
        crate::numeral::lemma_leading_zeros((4 - d.len()) as nat, d, 8);
    }
    assert(line.subrange(1, a as int) =~= m);
    assert(line.subrange(a + 1 as int, b as int) =~= l);
    assert(line.subrange(b + 1 as int, line.len() - 1) =~= name);
}

/// Reads one line off the front of `received`: the bytes before the first
/// `'\n'`, each taken as the character with the same number, and how many
/// bytes the line took, its `'\n'` included. `None` while no `'\n'` has come.
pub fn raw_read_line(received: &[u8]) -> (r: Option<(String, usize)>)
    ensures
        match r {
            Some((line, used)) => {
                &&& 1 <= used <= received@.len()
                &&& received@[used - 1] == NEWLINE
                &&& forall|i: int| 0 <= i < used - 1 ==> received@[i] != NEWLINE
                &&& line@ == latin1(received@.take(used - 1))
            },
            None => forall|i: int| 0 <= i < received@.len() ==> received@[i] != NEWLINE,
        },
{
    let mut s = String::new();
    let mut i: usize = 0;
    while i < received.len()
        invariant
            i <= received.len(),
            forall|j: int| 0 <= j < i ==> received@[j] != NEWLINE,
            s@ == latin1(received@.take(i as int)),
        decreases received.len() - i,
    {
        if received[i] == NEWLINE {
            return Some((s, i + 1));
        }
        let ghost before = s@;
        push_latin1(&mut s, &received[i..i + 1]);
        assert(received@.subrange(i as int, i + 1) == seq![received@[i as int]]);
        assert(received@.take(i + 1) == received@.take(i as int).push(received@[i as int]));
        assert(latin1(received@.take(i + 1)) =~= latin1(received@.take(i as int)) + latin1(
            seq![received@[i as int]],
        ));
        i += 1;
    }
    None
}

} // verus!
