//! The decisions of the command-line front ends: which side of a copy is
//! remote, what the server is asked to do, where the server's own address
//! comes from, how it looks for a free port, and the line it hands back to
//! the client.
use vstd::prelude::*;
use crate::crypto::{base64_char, base64_standard, key2string, nonce2string, Key, Nonce};
use crate::numeral::{digits, push_digits};
use crate::text::{chars_of, latin1, push_latin1, string_push};

verus! {

/// The pieces of `s` between the occurrences of `sep`, empty ones
/// included: what `split` of std gives for a one-character pattern.
pub open spec fn split_on(s: Seq<char>, sep: char) -> Seq<Seq<char>>
    decreases s.len(),
{
    if s.len() == 0 {
        seq![Seq::empty()]
    } else {
        let p = split_on(s.drop_last(), sep);
        if s.last() == sep {
            p.push(Seq::empty())
        } else {
            p.update(p.len() - 1, p.last().push(s.last()))
        }
    }
}

/// How many times `c` occurs in `s`.
pub open spec fn count_char(s: Seq<char>, c: char) -> nat
    decreases s.len(),
{
    if s.len() == 0 {
        0
    } else {
        count_char(s.drop_last(), c) + if s.last() == c {
            1nat
        } else {
            0nat
        }
    }
}

/// There is always at least one piece, and one more than separators.
pub proof fn lemma_split_len(s: Seq<char>, sep: char)
    ensures
        split_on(s, sep).len() == count_char(s, sep) + 1,
    decreases s.len(),
{
    if s.len() > 0 {
        lemma_split_len(s.drop_last(), sep);
    }
}

/// The views of a vector of strings.
pub open spec fn string_views(v: Seq<String>) -> Seq<Seq<char>> {
    v.map_values(|x: String| x@)
}

/// Splits `s` at every `sep`.
pub fn split_char(s: &str, sep: char) -> (r: Vec<String>)
    ensures
        string_views(r@) == split_on(s@, sep),
{
    let cs = chars_of(s);
    let mut done: Vec<String> = Vec::new();
    let mut cur = String::new();
    let mut i: usize = 0;
    assert(cs@.take(0) =~= Seq::<char>::empty());
    assert(string_views(done@).push(cur@) =~= seq![Seq::<char>::empty()]);
    while i < cs.len()
        invariant
            i <= cs.len(),
            cs@ == s@,
            string_views(done@).push(cur@) == split_on(cs@.take(i as int), sep),
        decreases cs.len() - i,
    {
        let c = cs[i];
        let ghost t = cs@.take(i + 1);
        assert(t.drop_last() == cs@.take(i as int));
        assert(t.last() == c);
        if c == sep {
            let ghost old_done = string_views(done@);
            let ghost old_cur = cur@;
            done.push(cur);
            cur = String::new();
            assert(string_views(done@) =~= old_done.push(old_cur));
        } else {
            let ghost old_cur = cur@;
            string_push(&mut cur, c);
            assert(string_views(done@).push(old_cur).update(
                string_views(done@).len() as int,
                old_cur.push(c),
            ) =~= string_views(done@).push(cur@));
        }
        i += 1;
    }
    assert(cs@.take(cs@.len() as int) == cs@);
    let ghost old_done = string_views(done@);
    let ghost old_cur = cur@;
    done.push(cur);
    assert(string_views(done@) =~= old_done.push(old_cur));
    done
}

/// Counts the occurrences of `c` in `s`.
pub fn count_occurrences(s: &str, c: char) -> (n: usize)
    ensures
        n == count_char(s@, c),
{
    let cs = chars_of(s);
    let mut n: usize = 0;
    let mut i: usize = 0;
    while i < cs.len()
        invariant
            i <= cs.len(),
            n <= i,
            n == count_char(cs@.take(i as int), c),
        decreases cs.len() - i,
    {
        assert(cs@.take(i + 1).drop_last() == cs@.take(i as int));
        if cs[i] == c {
            n += 1;
        }
        i += 1;
    }
    assert(cs@.take(cs@.len() as int) == cs@);
    n
}

/// Whether the command line asks for the server side: its first argument
/// after the program's name is `server`.
pub fn is_server_invocation(args: &Vec<String>) -> (r: bool)
    ensures
        r == (args@.len() > 1 && args@[1]@ == "server"@),
{
    if args.len() > 1 {
        let server = String::from_str("server");
        args[1] == server
    } else {
        false
    }
}

/// The copy that the client is asked for.
pub struct ClientPlan {
    pub host: String,
    pub local_file: String,
    pub remote_file: String,
    pub is_recv: bool,
}

/// Why the client's arguments do not make a copy.
#[derive(Debug)]
pub enum PlanError {
    /// There are not exactly a source and a destination.
    WrongArgCount,
    /// This argument holds more than two colons.
    InvalidIdentifier(String),
    /// Both the source and the destination name a host.
    BothRemote,
    /// Neither the source nor the destination names a host.
    NeitherRemote,
}

/// What the client's free arguments (source, then destination) ask for:
/// `host:file` names a remote file. When the source is remote, the client
/// receives: the host and remote file are the source's pieces before and
/// after its first colon, the local file the destination. When the
/// destination is remote, the client sends: the host is the destination's
/// first piece, the local file its second, and the remote file the source.
pub open spec fn client_plan(free: Seq<Seq<char>>) -> Result<
    (Seq<char>, Seq<char>, Seq<char>, bool),
    PlanFailure,
> {
    if free.len() != 2 {
        Err(PlanFailure::WrongArgCount)
    } else if count_char(free[0], ':') > 2 {
        Err(PlanFailure::InvalidIdentifier(free[0]))
    } else if count_char(free[1], ':') > 2 {
        Err(PlanFailure::InvalidIdentifier(free[1]))
    } else {
        let src_remote = count_char(free[0], ':') > 0;
        let dest_remote = count_char(free[1], ':') > 0;
        if src_remote && dest_remote {
            Err(PlanFailure::BothRemote)
        } else if !src_remote && !dest_remote {
            Err(PlanFailure::NeitherRemote)
        } else if src_remote {
            let p = split_on(free[0], ':');
            Ok((p[0], free[1], p[1], true))
        } else {
            let p = split_on(free[1], ':');
            Ok((p[0], p[1], free[0], false))
        }
    }
}

/// A `PlanError` with the argument as characters.
pub enum PlanFailure {
    WrongArgCount,
    InvalidIdentifier(Seq<char>),
    BothRemote,
    NeitherRemote,
}

/// Decides the copy from the client's free arguments.
pub fn plan_client(free: &Vec<String>) -> (r: Result<ClientPlan, PlanError>)
    ensures
        match r {
            Ok(p) => client_plan(string_views(free@)) == Ok::<
                (Seq<char>, Seq<char>, Seq<char>, bool),
                PlanFailure,
            >((p.host@, p.local_file@, p.remote_file@, p.is_recv)),
            Err(PlanError::WrongArgCount) => client_plan(string_views(free@)) is Err
                && client_plan(string_views(free@))->Err_0 is WrongArgCount,
            Err(PlanError::InvalidIdentifier(a)) => client_plan(string_views(free@)) is Err
                && client_plan(string_views(free@))->Err_0 == PlanFailure::InvalidIdentifier(a@),
            Err(PlanError::BothRemote) => client_plan(string_views(free@)) is Err
                && client_plan(string_views(free@))->Err_0 is BothRemote,
            Err(PlanError::NeitherRemote) => client_plan(string_views(free@)) is Err
                && client_plan(string_views(free@))->Err_0 is NeitherRemote,
        },
{
    let ghost v = string_views(free@);
    if free.len() != 2 {
        return Err(PlanError::WrongArgCount);
    }
    assert(v[0] == free@[0]@ && v[1] == free@[1]@);
    let src = free[0].as_str();
    let dest = free[1].as_str();
    let src_colons = count_occurrences(src, ':');
    if src_colons > 2 {
        return Err(PlanError::InvalidIdentifier(String::from_str(src)));
    }
    let dest_colons = count_occurrences(dest, ':');
    if dest_colons > 2 {
        return Err(PlanError::InvalidIdentifier(String::from_str(dest)));
    }
    let src_remote = src_colons > 0;
    let dest_remote = dest_colons > 0;
    if src_remote && dest_remote {
        Err(PlanError::BothRemote)
    } else if !src_remote && !dest_remote {
        Err(PlanError::NeitherRemote)
    } else if src_remote {
        let mut p = split_char(src, ':');
        proof {
            lemma_split_len(src@, ':');
        }
        assert(string_views(p@).len() == p@.len());
        assert(string_views(p@)[0] == p@[0]@ && string_views(p@)[1] == p@[1]@);
        let remote_file = p.remove(1);
        let host = p.remove(0);
        Ok(ClientPlan { host, local_file: String::from_str(dest), remote_file, is_recv: true })
    } else {
        let mut p = split_char(dest, ':');
        proof {
            lemma_split_len(dest@, ':');
        }
        assert(string_views(p@).len() == p@.len());
        assert(string_views(p@)[0] == p@[0]@ && string_views(p@)[1] == p@[1]@);
        let local_file = p.remove(1);
        let host = p.remove(0);
        Ok(ClientPlan { host, local_file, remote_file: String::from_str(src), is_recv: false })
    }
}

/// The message when the server is given both or neither of `--from` and `--to`.
pub open spec fn from_or_to_text() -> Seq<char> {
    "Must be either 'from' or 'to', but not both"@
}

/// What the server is asked to do: send the file given with `--from`, or
/// receive into the file given with `--to` (the flag says whether it
/// receives); exactly one of the two must be given.
pub fn server_job(from: Option<String>, to: Option<String>) -> (r: Result<(String, bool), String>)
    ensures
        match (from, to) {
            (Some(f), None) => r matches Ok((name, is_recv)) && name@ == f@ && !is_recv,
            (None, Some(t)) => r matches Ok((name, is_recv)) && name@ == t@ && is_recv,
            _ => r matches Err(msg) && msg@ == from_or_to_text(),
        },
{
    match (from, to) {
        (Some(f), None) => Ok((f, false)),
        (None, Some(t)) => Ok((t, true)),
        _ => Err(String::from_str("Must be either 'from' or 'to', but not both")),
    }
}

/// The address the server falls back on when it is not run over SSH.
pub open spec fn loopback_text() -> Seq<char> {
    "127.0.0.1"@
}

/// The server's own address, as text, from `$SSH_CONNECTION` (client
/// address, client port, server address, server port, separated by spaces):
/// its third space-separated piece; the loopback address where the variable
/// is not set; an error where it has fewer than three pieces.
pub fn local_address_text(ssh_connection: Option<String>) -> (r: Result<String, String>)
    ensures
        match ssh_connection {
            None => r matches Ok(a) && a@ == loopback_text(),
            Some(v) => if split_on(v@, ' ').len() > 2 {
                r matches Ok(a) && a@ == split_on(v@, ' ')[2]
            } else {
                r matches Err(msg) && msg@ == "Failed to parse $SSH_CONNECTION: "@ + v@
            },
        },
{
    match ssh_connection {
        None => Ok(String::from_str("127.0.0.1")),
        Some(v) => {
            let mut pieces = split_char(v.as_str(), ' ');
            assert(string_views(pieces@).len() == pieces@.len());
            if pieces.len() > 2 {
                assert(string_views(pieces@)[2] == pieces@[2]@);
                Ok(pieces.remove(2))
            } else {
                let mut msg = String::from_str("Failed to parse $SSH_CONNECTION: ");
                msg.append(v.as_str());
                Err(msg)
            }
        },
    }
}

/// The first port the server tries.
pub const FIRST_PORT: u16 = 61000;

/// The port after the last one the server tries.
pub const END_PORT: u16 = 62000;

/// The UDT error code for a port that is taken.
pub const PORT_TAKEN: i32 = 1003;

/// What the server does after trying to bind a port.
pub enum BindStep {
    /// The port is bound.
    Bound(u16),
    /// The port was taken: try this one.
    TryPort(u16),
    /// Every port in the range was taken.
    Exhausted,
    /// Binding failed otherwise: give up with this message.
    Fail(String),
}

/// The decimal digits of a signed number, with `-` before a negative one.
pub open spec fn signed_text(n: i32) -> Seq<char> {
    if n < 0 {
        "-"@ + latin1(digits((-n) as nat, 10))
    } else {
        latin1(digits(n as nat, 10))
    }
}

/// The message for a failed bind.
pub open spec fn bind_error_text(port: u16, code: i32, msg: Seq<char>) -> Seq<char> {
    "Error binding "@ + latin1(digits(port as nat, 10)) + ": "@ + signed_text(code) + ":  "@ + msg
}

/// Appends the decimal digits of `n`, with `-` before a negative one.
fn push_signed(s: &mut String, n: i32)
    ensures
        final(s)@ == old(s)@ + signed_text(n),
{
    let mut d: Vec<u8> = Vec::new();
    if n < 0 {
        s.append("-");
        let m: u64 = (-(n as i64)) as u64;
        push_digits(&mut d, m, 10);
    } else {
        push_digits(&mut d, n as u64, 10);
    }
    push_latin1(s, d.as_slice());
}

/// Decides what follows an attempt to bind `port`: stop where it worked;
/// where the port was taken, try the next one of the range, or report the
/// range exhausted after its last port; any other error ends the search.
pub fn next_bind_step(port: u16, result: Result<(), (i32, String)>) -> (step: BindStep)
    requires
        FIRST_PORT <= port < END_PORT,
    ensures
        match result {
            Ok(()) => step == BindStep::Bound(port),
            Err((code, msg)) => if code != PORT_TAKEN {
                step matches BindStep::Fail(text) && text@ == bind_error_text(port, code, msg@)
            } else if port + 1 < END_PORT {
                step == BindStep::TryPort((port + 1) as u16)
            } else {
                step == BindStep::Exhausted
            },
        },
{
    match result {
        Ok(()) => BindStep::Bound(port),
        Err((code, msg)) => {
            if code != PORT_TAKEN {
                let mut text = String::from_str("Error binding ");
                let mut d: Vec<u8> = Vec::new();
                push_digits(&mut d, port as u64, 10);
                push_latin1(&mut text, d.as_slice());
                text.append(": ");
                push_signed(&mut text, code);
                text.append(":  ");
                text.append(msg.as_str());
                BindStep::Fail(text)
            } else if port + 1 < END_PORT {
                BindStep::TryPort(port + 1)
            } else {
                BindStep::Exhausted
            }
        },
    }
}

/// The line the server prints for the client: its address and port, the
/// key, and its read and write nonces, in text form.
pub open spec fn connect_text(
    addr: Seq<char>,
    port: u16,
    key: Seq<u8>,
    read_nonce: Seq<u8>,
    write_nonce: Seq<u8>,
) -> Seq<char> {
    "UCP CONNECT "@ + addr + " "@ + latin1(digits(port as nat, 10)) + " "@ + base64_standard(key)
        + " "@ + base64_standard(read_nonce) + " "@ + base64_standard(write_nonce)
}

/// Renders the line that tells the client where to connect and with which
/// key and nonces.
pub fn connect_line(addr: &str, port: u16, key: &Key, read_nonce: &Nonce, write_nonce: &Nonce) -> (s:
    String)
    ensures
        s@ == connect_text(addr@, port, key.0@, read_nonce.0@, write_nonce.0@),
{
    let mut s = String::from_str("UCP CONNECT ");
    s.append(addr);
    s.append(" ");
    let mut d: Vec<u8> = Vec::new();
    push_digits(&mut d, port as u64, 10);
    push_latin1(&mut s, d.as_slice());
    s.append(" ");
    let k = key2string(key);
    s.append(k.as_str());
    s.append(" ");
    let r = nonce2string(read_nonce);
    s.append(r.as_str());
    s.append(" ");
    let w = nonce2string(write_nonce);
    s.append(w.as_str());
    s
}

/// No character of `s` is `c`.
pub open spec fn has_no(s: Seq<char>, c: char) -> bool {
    forall|i: int| 0 <= i < s.len() ==> s[i] != c
}

/// Text without the separator is one piece.
pub proof fn lemma_split_single(x: Seq<char>, sep: char)
    requires
        has_no(x, sep),
    ensures
        split_on(x, sep) == seq![x],
    decreases x.len(),
{
    if x.len() == 0 {
        assert(x =~= Seq::<char>::empty());
    } else {
        lemma_split_single(x.drop_last(), sep);
        assert(x.drop_last().push(x.last()) =~= x);
        assert(x.last() != sep);
        assert(seq![x.drop_last()].update(0, x.drop_last().push(x.last())) =~= seq![x]);
    }
}

/// Splitting text joined by one separator splits each side apart.
pub proof fn lemma_split_concat(x: Seq<char>, y: Seq<char>, sep: char)
    ensures
        split_on(x + seq![sep] + y, sep) == split_on(x, sep) + split_on(y, sep),
    decreases y.len(),
{
    let z = x + seq![sep] + y;
    if y.len() == 0 {
        assert(z =~= x.push(sep));
        assert(z.drop_last() =~= x);
        assert(split_on(y, sep) == seq![Seq::<char>::empty()]);
        assert(split_on(x, sep).push(Seq::empty()) =~= split_on(x, sep) + seq![Seq::<char>::empty()]);
    } else {
        lemma_split_concat(x, y.drop_last(), sep);
        assert(z.drop_last() =~= x + seq![sep] + y.drop_last());
        assert(z.last() == y.last());
        let sx = split_on(x, sep);
        let sy = split_on(y.drop_last(), sep);
        lemma_split_len(y.drop_last(), sep);
        if y.last() == sep {
            assert((sx + sy).push(Seq::empty()) =~= sx + sy.push(Seq::empty()));
        } else {
            let c = y.last();
            assert((sx + sy).update((sx + sy).len() - 1, (sx + sy).last().push(c)) =~= sx
                + sy.update(sy.len() - 1, sy.last().push(c)));
        }
    }
}

/// Text in which `c` occurs has a first occurrence of it.
pub proof fn lemma_first_occurrence(s: Seq<char>, c: char) -> (i: int)
    requires
        count_char(s, c) > 0,
    ensures
        0 <= i < s.len(),
        s[i] == c,
        has_no(s.take(i), c),
    decreases s.len(),
{
    if count_char(s.drop_last(), c) > 0 {
        let i = lemma_first_occurrence(s.drop_last(), c);
        assert(s.take(i) =~= s.drop_last().take(i));
        i
    } else {
        lemma_count_zero(s.drop_last(), c);
        assert(s.take(s.len() - 1) =~= s.drop_last());
        (s.len() - 1) as int
    }
}

/// Text in which `c` does not occur has none of it.
pub proof fn lemma_count_zero(s: Seq<char>, c: char)
    requires
        count_char(s, c) == 0,
    ensures
        has_no(s, c),
    decreases s.len(),
{
    if s.len() > 0 {
        lemma_count_zero(s.drop_last(), c);
        assert forall|i: int| 0 <= i < s.len() implies s[i] != c by {
            if i < s.len() - 1 {
                assert(s[i] == s.drop_last()[i]);
            }
        }
    }
}

/// `a` and `b` are the first two fields of `s` between colons: `s` starts
/// with `a`, a colon and `b`, neither holds a colon, and `b` runs to the end
/// of `s` or to its next colon.
pub open spec fn leading_fields(s: Seq<char>, a: Seq<char>, b: Seq<char>) -> bool {
    let end = a.len() + 1 + b.len();
    &&& has_no(a, ':')
    &&& has_no(b, ':')
    &&& end <= s.len()
    &&& s.take(a.len() as int) == a
    &&& s[a.len() as int] == ':'
    &&& s.subrange(a.len() + 1 as int, end as int) == b
    &&& (end == s.len() || s[end as int] == ':')
}

/// The first two pieces of text that holds a colon are its leading fields.
pub proof fn lemma_split_leading_fields(s: Seq<char>)
    requires
        count_char(s, ':') > 0,
    ensures
        split_on(s, ':').len() >= 2,
        leading_fields(s, split_on(s, ':')[0], split_on(s, ':')[1]),
{
    let i = lemma_first_occurrence(s, ':');
    let a = s.take(i);
    let t = s.skip(i + 1);
    assert(s =~= a + seq![':'] + t);
    lemma_split_concat(a, t, ':');
    lemma_split_single(a, ':');
    lemma_split_len(t, ':');
    let p = split_on(s, ':');
    assert(p == seq![a] + split_on(t, ':'));
    assert(p[0] == a);
    assert(p[1] == split_on(t, ':')[0]);
    if count_char(t, ':') > 0 {
        let j = lemma_first_occurrence(t, ':');
        let b = t.take(j);
        assert(t =~= b + seq![':'] + t.skip(j + 1));
        lemma_split_concat(b, t.skip(j + 1), ':');
        lemma_split_single(b, ':');
        assert(split_on(t, ':')[0] == b);
        assert(s.subrange(i + 1, i + 1 + j) =~= b);
        assert(s[i + 1 + j] == t[j]);
    } else {
        lemma_count_zero(t, ':');
        lemma_split_single(t, ':');
        assert(s.subrange(i + 1, s.len() as int) =~= t);
    }
}

/// Sending to a remote destination: when only the destination holds a
/// colon (and at most two), the client sends the source file; the host is
/// the destination's field before its first colon, and the file it names
/// there is the field after it.
pub proof fn lemma_plan_sends_to_remote_destination(free: Seq<Seq<char>>)
    requires
        free.len() == 2,
        count_char(free[0], ':') == 0,
        1 <= count_char(free[1], ':') <= 2,
    ensures
        client_plan(free) matches Ok((host, local, remote, is_recv)) && !is_recv && remote
            == free[0] && leading_fields(free[1], host, local),
{
    lemma_split_leading_fields(free[1]);
}

/// Receiving from a remote source: when only the source holds a colon (and
/// at most two), the client receives into the destination; the host is the
/// source's field before its first colon, and the remote file the field
/// after it.
pub proof fn lemma_plan_receives_from_remote_source(free: Seq<Seq<char>>)
    requires
        free.len() == 2,
        1 <= count_char(free[0], ':') <= 2,
        count_char(free[1], ':') == 0,
    ensures
        client_plan(free) matches Ok((host, local, remote, is_recv)) && is_recv && local
            == free[1] && leading_fields(free[0], host, remote),
{
    lemma_split_leading_fields(free[0]);
}

/// Standard base64 text holds no space.
pub proof fn lemma_base64_no_space(b: Seq<u8>)
    ensures
        has_no(base64_standard(b), ' '),
    decreases b.len(),
{
    let t = base64_standard(b);
    if b.len() == 0 {
    } else {
        let v0 = b[0] as nat / 4;
        lemma_base64_char_not_space(v0);
        if b.len() == 1 {
            lemma_base64_char_not_space((b[0] as nat % 4) * 16);
        } else {
            lemma_base64_char_not_space((b[0] as nat % 4) * 16 + b[1] as nat / 16);
            if b.len() == 2 {
                lemma_base64_char_not_space((b[1] as nat % 16) * 4);
            } else {
                lemma_base64_char_not_space((b[1] as nat % 16) * 4 + b[2] as nat / 64);
                lemma_base64_char_not_space(b[2] as nat % 64);
                lemma_base64_no_space(b.skip(3));
                assert forall|i: int| 0 <= i < t.len() implies t[i] != ' ' by {
                    if i >= 4 {
                        assert(t[i] == base64_standard(b.skip(3))[i - 4]);
                    }
                }
            }
        }
    }
}

/// No character of the base64 alphabet is a space.
pub proof fn lemma_base64_char_not_space(v: nat)
    ensures
        base64_char(v) != ' ',
{
    if v < 26 {
        assert((65 + v) as char as int == 65 + v);
    } else if v < 52 {
        assert((97 + v - 26) as char as int == 97 + v - 26);
    } else if v < 62 {
        assert((48 + v - 52) as char as int == 48 + v - 52);
    }
}

/// The decimal digits of a number, as characters, hold no space.
pub proof fn lemma_digits_no_space(n: nat)
    ensures
        has_no(latin1(digits(n, 10)), ' '),
{
    crate::numeral::lemma_digits_denote(n, 10);
    let d = digits(n, 10);
    assert forall|i: int| 0 <= i < latin1(d).len() implies latin1(d)[i] != ' ' by {
        assert(crate::numeral::is_digit(d[i], 10));
        assert(latin1(d)[i] == d[i] as char);
    }
}

/// What the connect line tells the client, field by field: split at its
/// spaces, it is `UCP`, `CONNECT`, the address (which holds no space), the
/// port in decimal, and the base64 texts of the key, of the server's read
/// nonce and of its write nonce, in that order.
pub proof fn lemma_connect_fields(
    addr: Seq<char>,
    port: u16,
    key: Seq<u8>,
    read_nonce: Seq<u8>,
    write_nonce: Seq<u8>,
)
    requires
        has_no(addr, ' '),
    ensures
        split_on(connect_text(addr, port, key, read_nonce, write_nonce), ' ') == seq![
            "UCP"@,
            "CONNECT"@,
            addr,
            latin1(digits(port as nat, 10)),
            base64_standard(key),
            base64_standard(read_nonce),
            base64_standard(write_nonce),
        ],
{
    reveal_strlit("UCP CONNECT ");
    reveal_strlit("UCP");
    reveal_strlit("CONNECT");
    reveal_strlit(" ");
    let sp = seq![' '];
    let u = "UCP"@;
    let c = "CONNECT"@;
    let d = latin1(digits(port as nat, 10));
    let k = base64_standard(key);
    let r = base64_standard(read_nonce);
    let w = base64_standard(write_nonce);
    lemma_digits_no_space(port as nat);
    lemma_base64_no_space(key);
    lemma_base64_no_space(read_nonce);
    lemma_base64_no_space(write_nonce);
    assert(has_no(u, ' '));
    assert(has_no(c, ' '));
    let t5 = r + sp + w;
    let t4 = k + sp + t5;
    let t3 = d + sp + t4;
    let t2 = addr + sp + t3;
    let t1 = c + sp + t2;
    let t0 = u + sp + t1;
    assert(connect_text(addr, port, key, read_nonce, write_nonce) =~= t0);
    lemma_split_single(w, ' ');
    lemma_split_single(r, ' ');
    lemma_split_single(k, ' ');
    lemma_split_single(d, ' ');
    lemma_split_single(addr, ' ');
    lemma_split_single(c, ' ');
    lemma_split_single(u, ' ');
    lemma_split_concat(r, w, ' ');
    lemma_split_concat(k, t5, ' ');
    lemma_split_concat(d, t4, ' ');
    lemma_split_concat(addr, t3, ' ');
    lemma_split_concat(c, t2, ' ');
    lemma_split_concat(u, t1, ' ');
    assert(split_on(t0, ' ') =~= seq![u, c, addr, d, k, r, w]);
}

} // verus!
