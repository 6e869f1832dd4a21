//! The two ends of one file transfer, each as a state machine: the source,
//! which announces a file and sends its bytes, and the sink, which reads the
//! announcement and stores the bytes. Each step takes what the outside work
//! of the last action gave (an event) and names the next outside work (an
//! action); whoever drives the machine does the reading and writing.
use vstd::prelude::*;
use crate::rcp::{copy_header_line, format_copy_header, header_fields, parse_copy_header,
    raw_read_line, HeaderError, COPY_MARK, NEWLINE, REPLY_OK};
use crate::text::latin1;
use crate::numeral::digits;

verus! {

/// The most bytes one read of the file or of the stream asks for.
pub const CHUNK: usize = 4096;

/// A mode's permission bits are the mode modulo this: its low twelve bits
/// (set-user-ID, set-group-ID, sticky, and read, write and execute for user,
/// group and others), which are what a header announces.
pub const PERMISSION_RANGE: u32 = 4096;

/// How many bytes to ask for when `remaining` bytes of the announced length
/// are still to come: all of them, but at most a chunk.
pub open spec fn read_size(remaining: int) -> usize {
    if remaining < CHUNK {
        remaining as usize
    } else {
        CHUNK
    }
}

/// How many bytes to ask for when `remaining` bytes are still to come.
fn read_size_for(remaining: usize) -> (n: usize)
    ensures
        n == read_size(remaining as int),
{
    if remaining < CHUNK {
        remaining
    } else {
        CHUNK
    }
}

/// What the outside work of the last action gave.
pub enum Event {
    /// The action was carried out and gave nothing back.
    Done,
    /// One byte read off the stream.
    Byte(u8),
    /// The bytes one read gave (none at the end of what there is to read).
    Data(Vec<u8>),
    /// What the file to send is: its mode (permission bits, with any
    /// file-type bits above them), its length, and whether it is a regular
    /// file.
    FileInfo { mode: u32, length: usize, is_file: bool },
}

/// Why a transfer ends the way a panic ends it.
#[derive(Clone, Copy, Debug, PartialEq, Eq)]
pub enum Fault {
    /// A part of the protocol that this tool does not carry out (directories,
    /// warnings, recursive copies).
    Unimplemented,
    /// The file to send is not a regular file.
    NotAFile,
    /// A read that had to give bytes gave none.
    EmptyRead,
    /// The header line could not be read.
    BadHeader(HeaderError),
    /// An event that the machine does not expect in its state.
    UnexpectedEvent,
}

/// Why a transfer ends with an error.
#[derive(Clone, Copy, Debug, PartialEq, Eq)]
pub enum TransferError {
    /// A reply byte that is neither success nor a warning.
    UnexpectedStatus,
    /// A message that does not start with a known type byte; the byte.
    UnexpectedMessageType(u8),
}

/// The text of an unexpected message type.
pub open spec fn unexpected_type_text(b: u8) -> Seq<char> {
    "Unexpected message type: "@ + latin1(digits(b as nat, 10))
}

impl TransferError {
    /// The error message.
    pub fn message(&self) -> (s: String)
        ensures
            *self is UnexpectedStatus ==> s@ == "Unexpected status char!"@,
            *self matches TransferError::UnexpectedMessageType(b) ==> s@ == unexpected_type_text(b),
    {
        match self {
            TransferError::UnexpectedStatus => String::from_str("Unexpected status char!"),
            TransferError::UnexpectedMessageType(b) => {
                let mut s = String::from_str("Unexpected message type: ");
                let mut d: Vec<u8> = Vec::new();
                crate::numeral::push_digits(&mut d, *b as u64, 10);
                crate::text::push_latin1(&mut s, d.as_slice());
                s
            },
        }
    }
}

/// The outside work to do next.
pub enum Action {
    /// Look the file to send up: answer with `FileInfo`.
    InspectFile,
    /// Create (or truncate) the file to receive into: answer with `Done`.
    CreateFile,
    /// Read exactly one byte off the stream: answer with `Byte`.
    ReadByte,
    /// Read once off the stream, at most this many bytes: answer with `Data`.
    ReadStream(usize),
    /// Read once from the file, at most this many bytes: answer with `Data`.
    ReadFile(usize),
    /// Write all these bytes to the stream: answer with `Done`.
    WriteStream(Vec<u8>),
    /// Write one zero byte to the stream with a single write: answer with `Done`.
    Acknowledge,
    /// Give the received file these permission bits: answer with `Done`.
    SetMode(u32),
    /// Write all these bytes to the file: answer with `Done`.
    WriteFile(Vec<u8>),
    /// Flush the file to disk: answer with `Done`.
    SyncFile,
    /// The transfer is over, with this outcome.
    Finish(Result<(), TransferError>),
    /// The transfer stops as a panic stops it.
    Abort(Fault),
}

/// An event, with bytes as sequences.
#[verifier::ext_equal]
pub enum EventView {
    Done,
    Byte(u8),
    Data(Seq<u8>),
    FileInfo(u32, usize, bool),
}

/// An action, with bytes as sequences.
#[verifier::ext_equal]
pub enum ActionView {
    InspectFile,
    CreateFile,
    ReadByte,
    ReadStream(usize),
    ReadFile(usize),
    WriteStream(Seq<u8>),
    Acknowledge,
    SetMode(u32),
    WriteFile(Seq<u8>),
    SyncFile,
    Finish(Result<(), TransferError>),
    Abort(Fault),
}

impl View for Event {
    type V = EventView;

    open spec fn view(&self) -> EventView {
        match self {
            Event::Done => EventView::Done,
            Event::Byte(b) => EventView::Byte(*b),
            Event::Data(d) => EventView::Data(d@),
            Event::FileInfo { mode, length, is_file } => EventView::FileInfo(
                *mode,
                *length,
                *is_file,
            ),
        }
    }
}

impl View for Action {
    type V = ActionView;

    open spec fn view(&self) -> ActionView {
        match self {
            Action::InspectFile => ActionView::InspectFile,
            Action::CreateFile => ActionView::CreateFile,
            Action::ReadByte => ActionView::ReadByte,
            Action::ReadStream(n) => ActionView::ReadStream(*n),
            Action::ReadFile(n) => ActionView::ReadFile(*n),
            Action::WriteStream(d) => ActionView::WriteStream(d@),
            Action::Acknowledge => ActionView::Acknowledge,
            Action::SetMode(m) => ActionView::SetMode(*m),
            Action::WriteFile(d) => ActionView::WriteFile(d@),
            Action::SyncFile => ActionView::SyncFile,
            Action::Finish(r) => ActionView::Finish(*r),
            Action::Abort(f) => ActionView::Abort(*f),
        }
    }
}

/// Where the source is in its transfer.
#[derive(Clone, Copy, Debug, PartialEq, Eq, Structural)]
pub enum SourcePhase {
    /// Nothing done yet.
    Start,
    /// Waiting for what the file is.
    AwaitInfo,
    /// The header line is being written.
    SentHeader,
    /// Waiting for the reply to the header.
    HeaderReply,
    /// Waiting for bytes from the file.
    Reading,
    /// Bytes of the file are being written to the stream.
    Forwarding,
    /// Waiting for the reply after the last byte.
    FinalReply,
    /// The transfer is over.
    Finished,
}

/// The source's state: its phase, whether a recursive copy was asked for,
/// the name it announces, the file's mode and length, and how many bytes of
/// the file it has sent.
#[verifier::ext_equal]
pub struct SourceView {
    pub phase: SourcePhase,
    pub recursive: bool,
    pub name: Seq<u8>,
    pub mode: u32,
    pub length: usize,
    pub sent: usize,
}

/// The sending end of a transfer.
pub struct SourceSession {
    phase: SourcePhase,
    recursive: bool,
    name: Vec<u8>,
    mode: u32,
    length: usize,
    sent: usize,
}

impl View for SourceSession {
    type V = SourceView;

    closed spec fn view(&self) -> SourceView {
        SourceView {
            phase: self.phase,
            recursive: self.recursive,
            name: self.name@,
            mode: self.mode,
            length: self.length,
            sent: self.sent,
        }
    }
}

/// The source after a move to `phase`.
pub open spec fn source_in(s: SourceView, phase: SourcePhase) -> SourceView {
    SourceView { phase, ..s }
}

/// What a reply byte does: success moves on to `next`; a warning is not
/// carried out; any other byte ends the transfer with an error.
pub open spec fn source_reply(s: SourceView, b: u8, next: (SourceView, ActionView)) -> (
    SourceView,
    ActionView,
) {
    if b == REPLY_OK {
        next
    } else if b == 1 || b == 2 {
        (source_in(s, SourcePhase::Finished), ActionView::Abort(Fault::Unimplemented))
    } else {
        (
            source_in(s, SourcePhase::Finished),
            ActionView::Finish(Err(TransferError::UnexpectedStatus)),
        )
    }
}

/// After the header is acknowledged or a piece is sent: read more of the
/// file, no more than what is left of its announced length, while fewer
/// bytes than that length have gone; else wait for the final reply.
pub open spec fn source_continue(s: SourceView) -> (SourceView, ActionView) {
    if s.sent < s.length {
        (
            source_in(s, SourcePhase::Reading),
            ActionView::ReadFile(read_size(s.length - s.sent)),
        )
    } else {
        (source_in(s, SourcePhase::FinalReply), ActionView::ReadByte)
    }
}

/// One step of the source.
pub open spec fn source_next(s: SourceView, e: EventView) -> (SourceView, ActionView) {
    let unexpected = (
        source_in(s, SourcePhase::Finished),
        ActionView::Abort(Fault::UnexpectedEvent),
    );
    match s.phase {
        SourcePhase::Start => match e {
            EventView::Done => if s.recursive {
                (source_in(s, SourcePhase::Finished), ActionView::Abort(Fault::Unimplemented))
            } else {
                (source_in(s, SourcePhase::AwaitInfo), ActionView::InspectFile)
            },
            _ => unexpected,
        },
        SourcePhase::AwaitInfo => match e {
            EventView::FileInfo(mode, length, is_file) => if !is_file {
                (source_in(s, SourcePhase::Finished), ActionView::Abort(Fault::NotAFile))
            } else {
                (
                    SourceView {
                        phase: SourcePhase::SentHeader,
                        mode: (mode % PERMISSION_RANGE) as u32,
                        length,
                        ..s
                    },
                    ActionView::WriteStream(
                        copy_header_line((mode % PERMISSION_RANGE) as u32, length, s.name),
                    ),
                )
            },
            _ => unexpected,
        },
        SourcePhase::SentHeader => match e {
            EventView::Done => (source_in(s, SourcePhase::HeaderReply), ActionView::ReadByte),
            _ => unexpected,
        },
        SourcePhase::HeaderReply => match e {
            EventView::Byte(b) => source_reply(s, b, source_continue(s)),
            _ => unexpected,
        },
        SourcePhase::Reading => match e {
            EventView::Data(d) => if d.len() == 0 {
                (source_in(s, SourcePhase::Finished), ActionView::Abort(Fault::EmptyRead))
            } else if s.sent + d.len() > s.length {
                (source_in(s, SourcePhase::Finished), ActionView::Abort(Fault::UnexpectedEvent))
            } else {
                (
                    SourceView {
                        phase: SourcePhase::Forwarding,
                        sent: (s.sent + d.len()) as usize,
                        ..s
                    },
                    ActionView::WriteStream(d),
                )
            },
            _ => unexpected,
        },
        SourcePhase::Forwarding => match e {
            EventView::Done => source_continue(s),
            _ => unexpected,
        },
        SourcePhase::FinalReply => match e {
            EventView::Byte(b) => source_reply(
                s,
                b,
                (source_in(s, SourcePhase::Finished), ActionView::Finish(Ok(()))),
            ),
            _ => unexpected,
        },
        SourcePhase::Finished => unexpected,
    }
}

impl SourceSession {
    /// A source that will announce `name`; `recursive` asks for a copy of a
    /// whole directory, which is not carried out.
    pub fn new(name: &[u8], recursive: bool) -> (s: SourceSession)
        ensures
            s@ == (SourceView {
                phase: SourcePhase::Start,
                recursive,
                name: name@,
                mode: 0,
                length: 0,
                sent: 0,
            }),
    {
        let mut v: Vec<u8> = Vec::new();
        let mut i: usize = 0;
        while i < name.len()
            invariant
                i <= name.len(),
                v@ == name@.take(i as int),
            decreases name.len() - i,
        {
            v.push(name[i]);
            assert(name@.take(i + 1) == name@.take(i as int).push(name@[i as int]));
            i += 1;
        }
        assert(name@.take(name@.len() as int) == name@);
        SourceSession { phase: SourcePhase::Start, recursive, name: v, mode: 0, length: 0, sent: 0 }
    }

    fn finish(&mut self, a: Action) -> (r: Action)
        ensures
            final(self)@ == source_in(old(self)@, SourcePhase::Finished),
            r == a,
    {
        self.phase = SourcePhase::Finished;
        a
    }

    fn reply(&mut self, b: u8, after_ok: bool) -> (a: Action)
        ensures
            after_ok ==> (final(self)@, a@) == source_reply(
                old(self)@,
                b,
                source_continue(old(self)@),
            ),
            !after_ok ==> (final(self)@, a@) == source_reply(
                old(self)@,
                b,
                (source_in(old(self)@, SourcePhase::Finished), ActionView::Finish(Ok(()))),
            ),
    {
        if b == REPLY_OK {
            if after_ok {
                self.continue_sending()
            } else {
                self.finish(Action::Finish(Ok(())))
            }
        } else if b == 1 || b == 2 {
            self.finish(Action::Abort(Fault::Unimplemented))
        } else {
            self.finish(Action::Finish(Err(TransferError::UnexpectedStatus)))
        }
    }

    fn continue_sending(&mut self) -> (a: Action)
        ensures
            (final(self)@, a@) == source_continue(old(self)@),
    {
        if self.sent < self.length {
            self.phase = SourcePhase::Reading;
            Action::ReadFile(read_size_for(self.length - self.sent))
        } else {
            self.phase = SourcePhase::FinalReply;
            Action::ReadByte
        }
    }

    /// Takes the event that the last action gave and names the next action.
    /// The first step takes `Done`.
    pub fn step(&mut self, e: Event) -> (a: Action)
        ensures
            (final(self)@, a@) == source_next(old(self)@, e@),
    {
        match (self.phase, e) {
            (SourcePhase::Start, Event::Done) => {
                if self.recursive {
                    self.finish(Action::Abort(Fault::Unimplemented))
                } else {
                    self.phase = SourcePhase::AwaitInfo;
                    Action::InspectFile
                }
            },
            (SourcePhase::AwaitInfo, Event::FileInfo { mode, length, is_file }) => {
                if !is_file {
                    self.finish(Action::Abort(Fault::NotAFile))
                } else {
                    self.phase = SourcePhase::SentHeader;
                    self.mode = mode % PERMISSION_RANGE;
                    self.length = length;
                    Action::WriteStream(format_copy_header(self.mode, length, self.name.as_slice()))
                }
            },
            (SourcePhase::SentHeader, Event::Done) => {
                self.phase = SourcePhase::HeaderReply;
                Action::ReadByte
            },
            (SourcePhase::HeaderReply, Event::Byte(b)) => self.reply(b, true),
            (SourcePhase::Reading, Event::Data(d)) => {
                if d.len() == 0 {
                    self.finish(Action::Abort(Fault::EmptyRead))
                } else if self.sent > self.length || d.len() > self.length - self.sent {
                    self.finish(Action::Abort(Fault::UnexpectedEvent))
                } else {
                    self.phase = SourcePhase::Forwarding;
                    self.sent = self.sent + d.len();
                    Action::WriteStream(d)
                }
            },
            (SourcePhase::Forwarding, Event::Done) => self.continue_sending(),
            (SourcePhase::FinalReply, Event::Byte(b)) => self.reply(b, false),
            _ => self.finish(Action::Abort(Fault::UnexpectedEvent)),
        }
    }
}


/// Where the sink is in its transfer.
#[derive(Clone, Copy, Debug, PartialEq, Eq, Structural)]
pub enum SinkPhase {
    /// Nothing done yet.
    Start,
    /// The file to receive into is being created.
    Creating,
    /// Waiting for the byte that tells the message's type.
    AwaitType,
    /// Collecting the bytes of the header line.
    ReadingLine,
    /// The header line is being acknowledged.
    AckedHeader,
    /// The file's mode is being set.
    SettingMode,
    /// Waiting for bytes from the stream.
    Receiving,
    /// Bytes from the stream are being written to the file.
    Storing,
    /// The file is being flushed.
    Syncing,
    /// The final acknowledgement is being written.
    FinalAck,
    /// The transfer is over.
    Finished,
}

/// The sink's state: its phase, whether a recursive copy was asked for, the
/// bytes of the header line read so far (without its terminator), that line
/// as text once it is complete, the announced mode and length, and how many
/// bytes it has received.
#[verifier::ext_equal]
pub struct SinkView {
    pub phase: SinkPhase,
    pub recursive: bool,
    pub line: Seq<u8>,
    pub line_text: Seq<char>,
    pub mode: u32,
    pub length: usize,
    pub received: usize,
}

/// The receiving end of a transfer.
pub struct SinkSession {
    phase: SinkPhase,
    recursive: bool,
    line: Vec<u8>,
    line_text: String,
    mode: u32,
    length: usize,
    received: usize,
}

impl View for SinkSession {
    type V = SinkView;

    closed spec fn view(&self) -> SinkView {
        SinkView {
            phase: self.phase,
            recursive: self.recursive,
            line: self.line@,
            line_text: self.line_text@,
            mode: self.mode,
            length: self.length,
            received: self.received,
        }
    }
}

/// The sink after a move to `phase`.
pub open spec fn sink_in(s: SinkView, phase: SinkPhase) -> SinkView {
    SinkView { phase, ..s }
}

/// After the mode is set or a piece is stored: while fewer bytes than the
/// announced length have come, read more, no more than what is left of it;
/// else flush the file.
pub open spec fn sink_continue(s: SinkView) -> (SinkView, ActionView) {
    if s.received < s.length {
        (
            sink_in(s, SinkPhase::Receiving),
            ActionView::ReadStream(read_size(s.length - s.received)),
        )
    } else {
        (sink_in(s, SinkPhase::Syncing), ActionView::SyncFile)
    }
}

/// One step of the sink.
pub open spec fn sink_next(s: SinkView, e: EventView) -> (SinkView, ActionView) {
    let unexpected = (sink_in(s, SinkPhase::Finished), ActionView::Abort(Fault::UnexpectedEvent));
    match s.phase {
        SinkPhase::Start => match e {
            EventView::Done => if s.recursive {
                (sink_in(s, SinkPhase::Finished), ActionView::Abort(Fault::Unimplemented))
            } else {
                (sink_in(s, SinkPhase::Creating), ActionView::CreateFile)
            },
            _ => unexpected,
        },
        SinkPhase::Creating => match e {
            EventView::Done => (sink_in(s, SinkPhase::AwaitType), ActionView::ReadByte),
            _ => unexpected,
        },
        SinkPhase::AwaitType => match e {
            EventView::Byte(b) => if b == COPY_MARK {
                (
                    SinkView { phase: SinkPhase::ReadingLine, line: Seq::empty(), ..s },
                    ActionView::ReadByte,
                )
            } else if b == 68 || b == 69 || b == 84 {
                (sink_in(s, SinkPhase::Finished), ActionView::Abort(Fault::Unimplemented))
            } else {
                (
                    sink_in(s, SinkPhase::Finished),
                    ActionView::Finish(Err(TransferError::UnexpectedMessageType(b))),
                )
            },
            _ => unexpected,
        },
        SinkPhase::ReadingLine => match e {
            EventView::Byte(b) => if b == NEWLINE {
                (
                    SinkView { phase: SinkPhase::AckedHeader, line_text: latin1(s.line), ..s },
                    ActionView::Acknowledge,
                )
            } else {
                (SinkView { line: s.line.push(b), ..s }, ActionView::ReadByte)
            },
            _ => unexpected,
        },
        SinkPhase::AckedHeader => match e {
            EventView::Done => match header_fields(s.line) {
                Err(err) => (
                    sink_in(s, SinkPhase::Finished),
                    ActionView::Abort(Fault::BadHeader(err)),
                ),
                Ok((mode, length, _name)) => (
                    SinkView { phase: SinkPhase::SettingMode, mode, length, ..s },
                    ActionView::SetMode(mode),
                ),
            },
            _ => unexpected,
        },
        SinkPhase::SettingMode => match e {
            EventView::Done => sink_continue(s),
            _ => unexpected,
        },
        SinkPhase::Receiving => match e {
            EventView::Data(d) => if d.len() == 0 {
                (sink_in(s, SinkPhase::Finished), ActionView::Abort(Fault::EmptyRead))
            } else if s.received + d.len() > s.length {
                (sink_in(s, SinkPhase::Finished), ActionView::Abort(Fault::UnexpectedEvent))
            } else {
                (
                    SinkView {
                        phase: SinkPhase::Storing,
                        received: (s.received + d.len()) as usize,
                        ..s
                    },
                    ActionView::WriteFile(d),
                )
            },
            _ => unexpected,
        },
        SinkPhase::Storing => match e {
            EventView::Done => sink_continue(s),
            _ => unexpected,
        },
        SinkPhase::Syncing => match e {
            EventView::Done => (sink_in(s, SinkPhase::FinalAck), ActionView::Acknowledge),
            _ => unexpected,
        },
        SinkPhase::FinalAck => match e {
            EventView::Done => (sink_in(s, SinkPhase::Finished), ActionView::Finish(Ok(()))),
            _ => unexpected,
        },
        SinkPhase::Finished => unexpected,
    }
}

/// The header line collected so far holds no line terminator.
pub open spec fn sink_wf(s: SinkView) -> bool {
    forall|i: int| 0 <= i < s.line.len() ==> s.line[i] != NEWLINE
}

impl SinkSession {
    /// A sink; `recursive` asks for a copy of a whole directory, which is not
    /// carried out.
    pub fn new(recursive: bool) -> (s: SinkSession)
        ensures
            s@ == (SinkView {
                phase: SinkPhase::Start,
                recursive,
                line: Seq::empty(),
                line_text: Seq::empty(),
                mode: 0,
                length: 0,
                received: 0,
            }),
            sink_wf(s@),
    {
        SinkSession {
            phase: SinkPhase::Start,
            recursive,
            line: Vec::new(),
            line_text: String::new(),
            mode: 0,
            length: 0,
            received: 0,
        }
    }

    /// The header line as text, once it is complete (empty before).
    pub fn header_text(&self) -> (t: &String)
        ensures
            t@ == self@.line_text,
    {
        &self.line_text
    }

    fn finish(&mut self, a: Action) -> (r: Action)
        ensures
            final(self)@ == sink_in(old(self)@, SinkPhase::Finished),
            r == a,
    {
        self.phase = SinkPhase::Finished;
        a
    }

    fn continue_receiving(&mut self) -> (a: Action)
        ensures
            (final(self)@, a@) == sink_continue(old(self)@),
    {
        if self.received < self.length {
            self.phase = SinkPhase::Receiving;
            Action::ReadStream(read_size_for(self.length - self.received))
        } else {
            self.phase = SinkPhase::Syncing;
            Action::SyncFile
        }
    }

    /// Takes the event that the last action gave and names the next action.
    /// The first step takes `Done`.
    pub fn step(&mut self, e: Event) -> (a: Action)
        requires
            sink_wf(old(self)@),
        ensures
            (final(self)@, a@) == sink_next(old(self)@, e@),
            sink_wf(final(self)@),
    {
        match (self.phase, e) {
            (SinkPhase::Start, Event::Done) => {
                if self.recursive {
                    self.finish(Action::Abort(Fault::Unimplemented))
                } else {
                    self.phase = SinkPhase::Creating;
                    Action::CreateFile
                }
            },
            (SinkPhase::Creating, Event::Done) => {
                self.phase = SinkPhase::AwaitType;
                Action::ReadByte
            },
            (SinkPhase::AwaitType, Event::Byte(b)) => {
                if b == COPY_MARK {
                    self.phase = SinkPhase::ReadingLine;
                    self.line = Vec::new();
                    Action::ReadByte
                } else if b == 68 || b == 69 || b == 84 {
                    self.finish(Action::Abort(Fault::Unimplemented))
                } else {
                    self.finish(Action::Finish(Err(TransferError::UnexpectedMessageType(b))))
                }
            },
            (SinkPhase::ReadingLine, Event::Byte(b)) => {
                if b == NEWLINE {
                    let mut received = self.line.clone();
                    assert(received@ == self.line@);
                    received.push(NEWLINE);
                    match raw_read_line(received.as_slice()) {
                        Some((text, used)) => {
                            assert(used == received@.len()) by {
                                if used < received@.len() {
                                    assert(received@[used - 1] == self.line@[used - 1]);
                                }
                            }
                            assert(received@.take(used - 1) =~= self.line@);
                            self.line_text = text;
                        },
                        None => {
                            assert(received@[received@.len() - 1] == NEWLINE);
                        },
                    }
                    self.phase = SinkPhase::AckedHeader;
                    Action::Acknowledge
                } else {
                    self.line.push(b);
                    Action::ReadByte
                }
            },
            (SinkPhase::AckedHeader, Event::Done) => {
                match parse_copy_header(self.line.as_slice()) {
                    Err(err) => self.finish(Action::Abort(Fault::BadHeader(err))),
                    Ok(h) => {
                        self.phase = SinkPhase::SettingMode;
                        self.mode = h.mode;
                        self.length = h.length;
                        Action::SetMode(h.mode)
                    },
                }
            },
            (SinkPhase::SettingMode, Event::Done) => self.continue_receiving(),
            (SinkPhase::Receiving, Event::Data(d)) => {
                if d.len() == 0 {
                    self.finish(Action::Abort(Fault::EmptyRead))
                } else if self.received > self.length || d.len() > self.length - self.received {
                    self.finish(Action::Abort(Fault::UnexpectedEvent))
                } else {
                    self.phase = SinkPhase::Storing;
                    self.received = self.received + d.len();
                    Action::WriteFile(d)
                }
            },
            (SinkPhase::Storing, Event::Done) => self.continue_receiving(),
            (SinkPhase::Syncing, Event::Done) => {
                self.phase = SinkPhase::FinalAck;
                Action::Acknowledge
            },
            (SinkPhase::FinalAck, Event::Done) => self.finish(Action::Finish(Ok(()))),
            _ => self.finish(Action::Abort(Fault::UnexpectedEvent)),
        }
    }
}

} // verus!
