//! What holds of the two ends of a transfer over whole runs: the sink reads
//! the header that the source writes, and neither end moves on to its final
//! exchange before the announced number of bytes has gone through.
use vstd::prelude::*;
use crate::rcp::{copy_header_line, header_fields, is_space, lemma_header_round_trip, COPY_MARK,
    NEWLINE};
use crate::text::latin1;
use crate::transfer::{sink_next, source_next, ActionView, EventView, Fault, SinkPhase, SinkView,
    SourcePhase, SourceView, TransferError};

verus! {

/// The sink's state and actions after the events, one step each, in order.
pub open spec fn sink_run(s: SinkView, es: Seq<EventView>) -> (SinkView, Seq<ActionView>)
    decreases es.len(),
{
    if es.len() == 0 {
        (s, Seq::empty())
    } else {
        let (s1, a1) = sink_next(s, es[0]);
        let (sn, rest) = sink_run(s1, es.drop_first());
        (sn, seq![a1] + rest)
    }
}

/// The source's state and actions after the events, one step each, in order.
pub open spec fn source_run(s: SourceView, es: Seq<EventView>) -> (SourceView, Seq<ActionView>)
    decreases es.len(),
{
    if es.len() == 0 {
        (s, Seq::empty())
    } else {
        let (s1, a1) = source_next(s, es[0]);
        let (sn, rest) = source_run(s1, es.drop_first());
        (sn, seq![a1] + rest)
    }
}

/// The events of reading these bytes off the stream one at a time.
pub open spec fn byte_events(bytes: Seq<u8>) -> Seq<EventView> {
    bytes.map_values(|b: u8| EventView::Byte(b))
}

/// The bytes that a run of actions writes to the file.
pub open spec fn file_writes(acts: Seq<ActionView>) -> nat
    decreases acts.len(),
{
    if acts.len() == 0 {
        0
    } else {
        (match acts[0] {
            ActionView::WriteFile(d) => d.len(),
            _ => 0,
        }) + file_writes(acts.drop_first())
    }
}

/// A run over two lists of events is the run over the first, then the run
/// over the second from where the first ended.
pub proof fn lemma_sink_run_append(s: SinkView, a: Seq<EventView>, b: Seq<EventView>)
    ensures
        sink_run(s, a + b) == ({
            let (s1, acts1) = sink_run(s, a);
            let (s2, acts2) = sink_run(s1, b);
            (s2, acts1 + acts2)
        }),
    decreases a.len(),
{
    if a.len() == 0 {
        assert(a + b =~= b);
        assert(Seq::<ActionView>::empty() + sink_run(s, b).1 =~= sink_run(s, b).1);
    } else {
        let (s1, a1) = sink_next(s, a[0]);
        lemma_sink_run_append(s1, a.drop_first(), b);
        assert((a + b).drop_first() =~= a.drop_first() + b);
        assert((a + b)[0] == a[0]);
        let r1 = sink_run(s1, a.drop_first());
        let r2 = sink_run(r1.0, b);
        assert(seq![a1] + (r1.1 + r2.1) =~= (seq![a1] + r1.1) + r2.1);
    }
}

/// While the header line is being collected, bytes that are not its
/// terminator are added to it, each answered by reading the next byte.
pub proof fn lemma_sink_collects_line(s: SinkView, bytes: Seq<u8>)
    requires
        s.phase == SinkPhase::ReadingLine,
        forall|i: int| 0 <= i < bytes.len() ==> bytes[i] != NEWLINE,
    ensures
        sink_run(s, byte_events(bytes)).0 == (SinkView { line: s.line + bytes, ..s }),
        forall|i: int|
            0 <= i < bytes.len() ==> #[trigger] sink_run(s, byte_events(bytes)).1[i]
                == ActionView::ReadByte,
        sink_run(s, byte_events(bytes)).1.len() == bytes.len(),
    decreases bytes.len(),
{
    if bytes.len() == 0 {
        assert(s.line + bytes =~= s.line);
        assert(byte_events(bytes) =~= Seq::<EventView>::empty());
    } else {
        let es = byte_events(bytes);
        assert(es[0] == EventView::Byte(bytes[0]));
        assert(es.drop_first() =~= byte_events(bytes.drop_first()));
        let s1 = SinkView { line: s.line.push(bytes[0]), ..s };
        assert(sink_next(s, es[0]) == (s1, ActionView::ReadByte));
        lemma_sink_collects_line(s1, bytes.drop_first());
        assert(s1.line + bytes.drop_first() =~= s.line + bytes);
        let rest = sink_run(s1, byte_events(bytes.drop_first())).1;
        assert forall|i: int| 0 <= i < bytes.len() implies #[trigger] sink_run(
            s,
            byte_events(bytes),
        ).1[i] == ActionView::ReadByte by {
            if i > 0 {
                assert(sink_run(s, byte_events(bytes)).1[i] == rest[i - 1]);
            }
        }
    }
}

/// The sink reads the header the source writes: a sink waiting for a
/// message, given the bytes of the header line that announces a file (read
/// one at a time) and then the completion of its acknowledgement, asks to
/// set the announced mode and expects the announced length, with the line's
/// text kept. This holds for every name that is not empty and holds no white
/// space.
pub proof fn lemma_sink_reads_source_header(s: SinkView, mode: u32, length: usize, name: Seq<u8>)
    requires
        s.phase == SinkPhase::AwaitType,
        name.len() > 0,
        forall|i: int| 0 <= i < name.len() ==> !is_space(#[trigger] name[i]),
    ensures
        ({
            let line = copy_header_line(mode, length, name);
            let fields = line.subrange(1, line.len() - 1);
            let (t, acts) = sink_run(s, byte_events(line).push(EventView::Done));
            &&& t.phase == SinkPhase::SettingMode
            &&& t.mode == mode
            &&& t.length == length
            &&& t.received == s.received
            &&& t.line == fields
            &&& t.line_text == latin1(fields)
            &&& acts.last() == ActionView::SetMode(mode)
        }),
{
    let line = copy_header_line(mode, length, name);
    let fields = line.subrange(1, line.len() - 1);
    lemma_header_round_trip(mode, length, name);
    assert forall|i: int| 0 <= i < fields.len() implies fields[i] != NEWLINE by {
        assert(fields[i] == line[i + 1]);
    }
    let es = byte_events(line).push(EventView::Done);
    let e_mark = seq![EventView::Byte(COPY_MARK)];
    let e_fields = byte_events(fields);
    let e_tail = seq![EventView::Byte(NEWLINE), EventView::Done];
    assert(line =~= seq![COPY_MARK] + fields + seq![NEWLINE]);
    assert(es =~= e_mark + (e_fields + e_tail));
    lemma_sink_run_append(s, e_mark, e_fields + e_tail);
    let s1 = SinkView { phase: SinkPhase::ReadingLine, line: Seq::empty(), ..s };
    assert(sink_next(s, EventView::Byte(COPY_MARK)) == (s1, ActionView::ReadByte));
    assert(e_mark.drop_first() =~= Seq::<EventView>::empty());
    assert(sink_run(s1, e_mark.drop_first()) == (s1, Seq::<ActionView>::empty()));
    assert(sink_run(s, e_mark).0 == s1);
    lemma_sink_run_append(s1, e_fields, e_tail);
    lemma_sink_collects_line(s1, fields);
    let s2 = SinkView { line: s1.line + fields, ..s1 };
    assert(s1.line + fields =~= fields);
    let s3 = SinkView { phase: SinkPhase::AckedHeader, line_text: latin1(fields), ..s2 };
    assert(sink_next(s2, EventView::Byte(NEWLINE)) == (s3, ActionView::Acknowledge));
    assert(header_fields(fields) == Ok::<(u32, usize, Seq<u8>), crate::rcp::HeaderError>(
        (mode, length, name),
    ));
    let s4 = SinkView { phase: SinkPhase::SettingMode, mode, length, ..s3 };
    assert(sink_next(s3, EventView::Done) == (s4, ActionView::SetMode(mode)));
    assert(e_tail.drop_first() =~= seq![EventView::Done]);
    assert(seq![EventView::Done].drop_first() =~= Seq::<EventView>::empty());
    assert(sink_run(s4, seq![EventView::Done].drop_first()) == (s4, Seq::<ActionView>::empty()));
    assert(sink_run(s3, seq![EventView::Done]) == (s4, seq![ActionView::SetMode(mode)] + Seq::<
        ActionView,
    >::empty()));
    let r_tail = sink_run(s2, e_tail);
    assert(r_tail.0 == s4);
    assert(r_tail.1 =~= seq![ActionView::Acknowledge, ActionView::SetMode(mode)]);
}

/// What the sink keeps true: it never counts more bytes than the header
/// announced (none before the header is read), and once it flushes,
/// acknowledges or finishes well it has received exactly that many.
pub open spec fn sink_received_all(s: SinkView) -> bool {
    &&& s.received <= s.length
    &&& (s.phase == SinkPhase::Start || s.phase == SinkPhase::Creating || s.phase
        == SinkPhase::AwaitType || s.phase == SinkPhase::ReadingLine || s.phase
        == SinkPhase::AckedHeader) ==> s.received == 0
    &&& (s.phase == SinkPhase::Syncing || s.phase == SinkPhase::FinalAck) ==> s.received == s.length
}

/// A sink stores exactly the announced length: it asks the stream for no
/// more than what is left of it, refuses data beyond it, and flushes the
/// file, and so acknowledges and finishes well, only once it has received
/// exactly that many bytes; every step keeps that so.
pub proof fn lemma_sink_flushes_only_when_complete(s: SinkView, e: EventView)
    requires
        sink_received_all(s),
    ensures
        sink_received_all(sink_next(s, e).0),
        sink_next(s, e).1 matches ActionView::ReadStream(n) ==> 1 <= n <= s.length - s.received,
        sink_next(s, e).1 == ActionView::SyncFile ==> s.received == s.length,
        sink_next(s, e).1 == ActionView::Finish(Ok(())) ==> s.phase == SinkPhase::FinalAck
            && s.received == s.length,
{
}

/// Every step of the sink counts in `received` exactly the bytes it asks to
/// write to the file.
pub proof fn lemma_sink_counts_file_writes(s: SinkView, es: Seq<EventView>)
    ensures
        sink_run(s, es).0.received == s.received + file_writes(sink_run(s, es).1),
    decreases es.len(),
{
    if es.len() > 0 {
        let (s1, a1) = sink_next(s, es[0]);
        lemma_sink_counts_file_writes(s1, es.drop_first());
        let acts = sink_run(s, es).1;
        assert(acts[0] == a1);
        assert(acts.drop_first() =~= sink_run(s1, es.drop_first()).1);
    }
}

/// What the source keeps true: it never sends more file bytes than it
/// announced (none before the header goes out), and once it waits for the
/// final reply it has sent exactly that many.
pub open spec fn source_sent_all(s: SourceView) -> bool {
    &&& s.sent <= s.length
    &&& (s.phase == SourcePhase::Start || s.phase == SourcePhase::AwaitInfo) ==> s.sent == 0
    &&& s.phase == SourcePhase::FinalReply ==> s.sent == s.length
}

/// A source sends exactly the announced length: it asks the file for no
/// more than what is left of it, refuses data beyond it, and waits for the
/// final reply, and so finishes well, only once it has sent exactly that
/// many bytes; every step keeps that so.
pub proof fn lemma_source_finishes_only_when_sent(s: SourceView, e: EventView)
    requires
        source_sent_all(s),
    ensures
        source_sent_all(source_next(s, e).0),
        source_next(s, e).1 matches ActionView::ReadFile(n) ==> 1 <= n <= s.length - s.sent,
        source_next(s, e).1 == ActionView::Finish(Ok(())) ==> s.phase == SourcePhase::FinalReply
            && s.sent == s.length,
{
}

/// The source's first write is the header line that announces its file,
/// with the permission bits of the mode and the length that the file's
/// description gave.
pub proof fn lemma_source_announces_file(
    name: Seq<u8>,
    recursive: bool,
    mode: u32,
    length: usize,
)
    requires
        !recursive,
    ensures
        ({
            let s = SourceView {
                phase: SourcePhase::Start,
                recursive,
                name,
                mode: 0,
                length: 0,
                sent: 0,
            };
            let (t, acts) = source_run(
                s,
                seq![EventView::Done, EventView::FileInfo(mode, length, true)],
            );
            &&& acts =~= seq![
                ActionView::InspectFile,
                ActionView::WriteStream(copy_header_line(mode % 4096, length, name)),
            ]
            &&& t.phase == SourcePhase::SentHeader
            &&& t.mode == mode % 4096
            &&& t.length == length
        }),
{
    let s = SourceView { phase: SourcePhase::Start, recursive, name, mode: 0, length: 0, sent: 0 };
    let es = seq![EventView::Done, EventView::FileInfo(mode, length, true)];
    assert(es.drop_first() =~= seq![EventView::FileInfo(mode, length, true)]);
    assert(es.drop_first().drop_first() =~= Seq::<EventView>::empty());
    let s1 = SourceView { phase: SourcePhase::AwaitInfo, ..s };
    let s2 = SourceView { phase: SourcePhase::SentHeader, mode: mode % 4096, length, ..s1 };
    assert(source_next(s, EventView::Done) == (s1, ActionView::InspectFile));
    assert(source_run(s2, es.drop_first().drop_first()) == (s2, Seq::<ActionView>::empty()));
    assert(source_run(s1, es.drop_first()).0 == s2);
    assert(source_run(s1, es.drop_first()).1 =~= seq![
        ActionView::WriteStream(copy_header_line(mode % 4096, length, name)),
    ]);
}

/// The bytes of the data events, in order.
pub open spec fn data_of(es: Seq<EventView>) -> Seq<u8>
    decreases es.len(),
{
    if es.len() == 0 {
        Seq::empty()
    } else {
        (match es[0] {
            EventView::Data(d) => d,
            _ => Seq::empty(),
        }) + data_of(es.drop_first())
    }
}

/// The bytes that a run of actions writes to the file, in order.
pub open spec fn file_bytes(acts: Seq<ActionView>) -> Seq<u8>
    decreases acts.len(),
{
    if acts.len() == 0 {
        Seq::empty()
    } else {
        (match acts[0] {
            ActionView::WriteFile(d) => d,
            _ => Seq::empty(),
        }) + file_bytes(acts.drop_first())
    }
}

/// The bytes that a run of actions writes to the stream, in order.
pub open spec fn stream_bytes(acts: Seq<ActionView>) -> Seq<u8>
    decreases acts.len(),
{
    if acts.len() == 0 {
        Seq::empty()
    } else {
        (match acts[0] {
            ActionView::WriteStream(d) => d,
            _ => Seq::empty(),
        }) + stream_bytes(acts.drop_first())
    }
}

/// A finished sink stays finished and writes nothing more.
pub proof fn lemma_sink_finished_is_quiet(s: SinkView, es: Seq<EventView>)
    requires
        s.phase == SinkPhase::Finished,
    ensures
        sink_run(s, es).0.phase == SinkPhase::Finished,
        file_bytes(sink_run(s, es).1) == Seq::<u8>::empty(),
    decreases es.len(),
{
    if es.len() > 0 {
        let (s1, a1) = sink_next(s, es[0]);
        lemma_sink_finished_is_quiet(s1, es.drop_first());
        let acts = sink_run(s, es).1;
        assert(acts[0] == a1);
        assert(acts.drop_first() =~= sink_run(s1, es.drop_first()).1);
    }
}

/// The sink writes to the file exactly the bytes it is given to read, in
/// order: what a run writes is a beginning of the data its events carry,
/// cut only where the sink stops.
pub proof fn lemma_sink_writes_received_data(s: SinkView, es: Seq<EventView>)
    ensures
        file_bytes(sink_run(s, es).1).is_prefix_of(data_of(es)),
    decreases es.len(),
{
    if es.len() == 0 {
        assert(file_bytes(sink_run(s, es).1) =~= Seq::<u8>::empty());
    } else {
        let (s1, a1) = sink_next(s, es[0]);
        let rest = es.drop_first();
        lemma_sink_writes_received_data(s1, rest);
        let acts = sink_run(s, es).1;
        let racts = sink_run(s1, rest).1;
        assert(acts[0] == a1);
        assert(acts.drop_first() =~= racts);
        let fb = file_bytes(racts);
        let dr = data_of(rest);
        match a1 {
            ActionView::WriteFile(d) => {
                assert(es[0] == EventView::Data(d));
                assert(file_bytes(acts) == d + fb);
                assert(data_of(es) == d + dr);
                assert((d + dr).take((d + fb).len() as int) =~= d + fb);
            },
            _ => {
                assert(file_bytes(acts) == Seq::<u8>::empty() + fb);
                assert(Seq::<u8>::empty() + fb =~= fb);
                match es[0] {
                    EventView::Data(d) => {
                        assert(s1.phase == SinkPhase::Finished);
                        lemma_sink_finished_is_quiet(s1, rest);
                        assert(file_bytes(acts) =~= Seq::<u8>::empty());
                    },
                    _ => {
                        assert(data_of(es) =~= dr);
                    },
                }
            },
        }
    }
}

/// A finished source stays finished and writes nothing more.
pub proof fn lemma_source_finished_is_quiet(s: SourceView, es: Seq<EventView>)
    requires
        s.phase == SourcePhase::Finished,
    ensures
        source_run(s, es).0.phase == SourcePhase::Finished,
        stream_bytes(source_run(s, es).1) == Seq::<u8>::empty(),
    decreases es.len(),
{
    if es.len() > 0 {
        let (s1, a1) = source_next(s, es[0]);
        lemma_source_finished_is_quiet(s1, es.drop_first());
        let acts = source_run(s, es).1;
        assert(acts[0] == a1);
        assert(acts.drop_first() =~= source_run(s1, es.drop_first()).1);
    }
}

/// Once its header has gone out, the source writes to the stream exactly
/// the bytes it reads from the file, in order: what a run writes is a
/// beginning of the data its events carry, cut only where the source stops.
pub proof fn lemma_source_sends_file_data(s: SourceView, es: Seq<EventView>)
    requires
        s.phase != SourcePhase::Start,
        s.phase != SourcePhase::AwaitInfo,
    ensures
        stream_bytes(source_run(s, es).1).is_prefix_of(data_of(es)),
    decreases es.len(),
{
    if es.len() == 0 {
        assert(stream_bytes(source_run(s, es).1) =~= Seq::<u8>::empty());
    } else {
        let (s1, a1) = source_next(s, es[0]);
        let rest = es.drop_first();
        lemma_source_sends_file_data(s1, rest);
        let acts = source_run(s, es).1;
        let racts = source_run(s1, rest).1;
        assert(acts[0] == a1);
        assert(acts.drop_first() =~= racts);
        let sb = stream_bytes(racts);
        let dr = data_of(rest);
        match a1 {
            ActionView::WriteStream(d) => {
                assert(es[0] == EventView::Data(d));
                assert(stream_bytes(acts) == d + sb);
                assert(data_of(es) == d + dr);
                assert((d + dr).take((d + sb).len() as int) =~= d + sb);
            },
            _ => {
                assert(stream_bytes(acts) == Seq::<u8>::empty() + sb);
                assert(Seq::<u8>::empty() + sb =~= sb);
                match es[0] {
                    EventView::Data(d) => {
                        assert(s1.phase == SourcePhase::Finished);
                        lemma_source_finished_is_quiet(s1, rest);
                        assert(stream_bytes(acts) =~= Seq::<u8>::empty());
                    },
                    _ => {
                        assert(data_of(es) =~= dr);
                    },
                }
            },
        }
    }
}

/// What a reply byte does to the source, after its header or after its
/// last byte: zero is success, and then, after the last byte, the transfer
/// finishes well; one or two (a warning or an error of the sink) stops it
/// as not carried out; any other byte ends it with an unexpected status.
/// Only zero lets it go on.
pub proof fn lemma_source_reply_outcomes(s: SourceView, b: u8)
    requires
        s.phase == SourcePhase::HeaderReply || s.phase == SourcePhase::FinalReply,
    ensures
        (b == 1 || b == 2) ==> source_next(s, EventView::Byte(b)).1 == ActionView::Abort(
            Fault::Unimplemented,
        ),
        (b != 0 && b != 1 && b != 2) ==> source_next(s, EventView::Byte(b)).1 == ActionView::Finish(
            Err(TransferError::UnexpectedStatus),
        ),
        b != 0 ==> source_next(s, EventView::Byte(b)).0.phase == SourcePhase::Finished,
        (s.phase == SourcePhase::FinalReply && b == 0) ==> source_next(s, EventView::Byte(b)).1
            == ActionView::Finish(Ok(())),
{
}

/// A source reports success only on a final reply byte of zero, after the
/// whole file has gone.
pub proof fn lemma_source_success_needs_zero_reply(s: SourceView, e: EventView)
    ensures
        source_next(s, e).1 == ActionView::Finish(Ok(())) ==> s.phase == SourcePhase::FinalReply
            && e == EventView::Byte(0),
{
}

} // verus!
