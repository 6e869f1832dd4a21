use ucp::rcp::HeaderError;
use ucp::transfer::{Action, Event, Fault, SinkSession, SourceSession, TransferError, CHUNK};

/// Runs a source and a sink against each other over an in-memory stream,
/// the source's file being `data` with permission bits `mode`. Gives what
/// each side finished with, the bytes the sink wrote, the mode it set, and
/// the bytes that went over the stream from the source.
fn run_pair(
    name: &[u8],
    mode: u32,
    data: &[u8],
) -> (Action, Action, Vec<u8>, Option<u32>, Vec<u8>) {
    let mut src = SourceSession::new(name, false);
    let mut snk = SinkSession::new(false);
    let mut to_sink: std::collections::VecDeque<u8> = Default::default();
    let mut to_source: std::collections::VecDeque<u8> = Default::default();
    let mut wire = Vec::new();
    let mut file_pos = 0;
    let mut written = Vec::new();
    let mut set_mode = None;
    let mut src_action = src.step(Event::Done);
    let mut snk_action = snk.step(Event::Done);
    for _ in 0..100000 {
        let src_done = matches!(src_action, Action::Finish(_) | Action::Abort(_));
        let snk_done = matches!(snk_action, Action::Finish(_) | Action::Abort(_));
        if src_done && snk_done {
            break;
        }
        let mut progressed = false;
        if !src_done {
            let ev = match &src_action {
                Action::InspectFile => Some(Event::FileInfo { mode, length: data.len(), is_file: true }),
                Action::WriteStream(d) => {
                    wire.extend_from_slice(d);
                    to_sink.extend(d.iter().copied());
                    Some(Event::Done)
                },
                Action::ReadFile(max) => {
                    let end = (file_pos + max).min(data.len());
                    let chunk = data[file_pos..end].to_vec();
                    file_pos = end;
                    Some(Event::Data(chunk))
                },
                Action::ReadByte => to_source.pop_front().map(Event::Byte),
                other => panic!("source asked for {:?}", std::mem::discriminant(other)),
            };
            if let Some(ev) = ev {
                src_action = src.step(ev);
                progressed = true;
            }
        }
        if !snk_done {
            let ev = match &snk_action {
                Action::CreateFile => Some(Event::Done),
                Action::ReadByte => to_sink.pop_front().map(Event::Byte),
                Action::Acknowledge => {
                    to_source.push_back(0);
                    Some(Event::Done)
                },
                Action::SetMode(m) => {
                    set_mode = Some(*m);
                    Some(Event::Done)
                },
                Action::ReadStream(max) => {
                    if to_sink.is_empty() {
                        None
                    } else {
                        let n = (*max).min(to_sink.len());
                        Some(Event::Data(to_sink.drain(..n).collect()))
                    }
                },
                Action::WriteFile(d) => {
                    written.extend_from_slice(d);
                    Some(Event::Done)
                },
                Action::SyncFile => Some(Event::Done),
                other => panic!("sink asked for {:?}", std::mem::discriminant(other)),
            };
            if let Some(ev) = ev {
                snk_action = snk.step(ev);
                progressed = true;
            }
        }
        assert!(progressed, "both ends wait");
    }
    (src_action, snk_action, written, set_mode, wire)
}

#[test]
fn a_file_goes_across_unchanged() {
    let data: Vec<u8> = (0..10000u32).map(|i| (i * 7 % 251) as u8).collect();
    let (s, k, written, mode, wire) = run_pair(b"data.bin", 0o100640, &data);
    assert!(matches!(s, Action::Finish(Ok(()))));
    assert!(matches!(k, Action::Finish(Ok(()))));
    assert_eq!(written, data);
    assert_eq!(mode, Some(0o640));
    let header = b"C0640 10000 data.bin\n";
    assert_eq!(&wire[..header.len()], &header[..]);
    assert_eq!(&wire[header.len()..], &data[..]);
}

#[test]
fn an_empty_file_goes_across() {
    let (s, k, written, mode, wire) = run_pair(b"empty", 0o644, b"");
    assert!(matches!(s, Action::Finish(Ok(()))));
    assert!(matches!(k, Action::Finish(Ok(()))));
    assert!(written.is_empty());
    assert_eq!(mode, Some(0o644));
    assert_eq!(wire, b"C0644 0 empty\n".to_vec());
}

#[test]
fn the_sink_keeps_the_header_text() {
    let mut snk = SinkSession::new(false);
    assert!(matches!(snk.step(Event::Done), Action::CreateFile));
    assert!(matches!(snk.step(Event::Done), Action::ReadByte));
    let mut last = snk.step(Event::Byte(b'C'));
    for b in b"0600 3 f\xe9\n" {
        assert!(matches!(last, Action::ReadByte));
        last = snk.step(Event::Byte(*b));
    }
    assert!(matches!(last, Action::Acknowledge));
    assert_eq!(snk.header_text(), "0600 3 f\u{e9}");
    assert!(matches!(snk.step(Event::Done), Action::SetMode(0o600)));
    assert!(matches!(snk.step(Event::Done), Action::ReadStream(3)));
}

#[test]
fn source_reply_errors() {
    for (reply, fault) in [(1u8, true), (2, true), (7, false)] {
        let mut src = SourceSession::new(b"x", false);
        src.step(Event::Done);
        assert!(matches!(src.step(Event::FileInfo { mode: 0o644, length: 1, is_file: true }), Action::WriteStream(_)));
        assert!(matches!(src.step(Event::Done), Action::ReadByte));
        let a = src.step(Event::Byte(reply));
        if fault {
            assert!(matches!(a, Action::Abort(Fault::Unimplemented)));
        } else {
            assert!(matches!(a, Action::Finish(Err(TransferError::UnexpectedStatus))));
        }
    }
    assert_eq!(TransferError::UnexpectedStatus.message(), "Unexpected status char!");
}

#[test]
fn source_faults() {
    let mut src = SourceSession::new(b"x", true);
    assert!(matches!(src.step(Event::Done), Action::Abort(Fault::Unimplemented)));
    let mut src = SourceSession::new(b"x", false);
    src.step(Event::Done);
    assert!(matches!(src.step(Event::FileInfo { mode: 0o755, length: 0, is_file: false }), Action::Abort(Fault::NotAFile)));
    let mut src = SourceSession::new(b"x", false);
    src.step(Event::Done);
    src.step(Event::FileInfo { mode: 0o644, length: 10, is_file: true });
    src.step(Event::Done);
    assert!(matches!(src.step(Event::Byte(0)), Action::ReadFile(10)));
    assert!(matches!(src.step(Event::Data(Vec::new())), Action::Abort(Fault::EmptyRead)));
    let mut src = SourceSession::new(b"x", false);
    assert!(matches!(src.step(Event::Byte(0)), Action::Abort(Fault::UnexpectedEvent)));
    assert!(matches!(src.step(Event::Done), Action::Abort(Fault::UnexpectedEvent)));
}

#[test]
fn source_sends_only_the_announced_length() {
    let mut src = SourceSession::new(b"x", false);
    src.step(Event::Done);
    src.step(Event::FileInfo { mode: 0o644, length: 3, is_file: true });
    src.step(Event::Done);
    assert!(matches!(src.step(Event::Byte(0)), Action::ReadFile(3)));
    assert!(matches!(src.step(Event::Data(b"abc".to_vec())), Action::WriteStream(d) if d == b"abc".to_vec()));
    assert!(matches!(src.step(Event::Done), Action::ReadByte));
    assert!(matches!(src.step(Event::Byte(0)), Action::Finish(Ok(()))));
    let mut src = SourceSession::new(b"x", false);
    src.step(Event::Done);
    src.step(Event::FileInfo { mode: 0o644, length: 3, is_file: true });
    src.step(Event::Done);
    src.step(Event::Byte(0));
    assert!(matches!(src.step(Event::Data(b"abcde".to_vec())), Action::Abort(Fault::UnexpectedEvent)));
    let mut src = SourceSession::new(b"big", false);
    src.step(Event::Done);
    src.step(Event::FileInfo { mode: 0o644, length: 10000, is_file: true });
    src.step(Event::Done);
    assert!(matches!(src.step(Event::Byte(0)), Action::ReadFile(CHUNK)));
}

#[test]
fn source_announces_permission_bits_only() {
    let mut src = SourceSession::new(b"f", false);
    src.step(Event::Done);
    let a = src.step(Event::FileInfo { mode: 0o104755, length: 1, is_file: true });
    assert!(matches!(a, Action::WriteStream(d) if d == b"C4755 1 f\n".to_vec()));
}

#[test]
fn sink_message_type_errors() {
    for b in [b'D', b'E', b'T'] {
        let mut snk = SinkSession::new(false);
        snk.step(Event::Done);
        snk.step(Event::Done);
        assert!(matches!(snk.step(Event::Byte(b)), Action::Abort(Fault::Unimplemented)));
    }
    let mut snk = SinkSession::new(false);
    snk.step(Event::Done);
    snk.step(Event::Done);
    let a = snk.step(Event::Byte(b'X'));
    assert!(matches!(a, Action::Finish(Err(TransferError::UnexpectedMessageType(88)))));
    assert_eq!(TransferError::UnexpectedMessageType(88).message(), "Unexpected message type: 88");
    assert_eq!(TransferError::UnexpectedMessageType(0).message(), "Unexpected message type: 0");
    let mut snk = SinkSession::new(true);
    assert!(matches!(snk.step(Event::Done), Action::Abort(Fault::Unimplemented)));
}

#[test]
fn sink_refuses_a_bad_header_after_acknowledging_it() {
    let mut snk = SinkSession::new(false);
    snk.step(Event::Done);
    snk.step(Event::Done);
    snk.step(Event::Byte(b'C'));
    let mut last = Action::ReadByte;
    for b in b"0644 oops\n" {
        last = snk.step(Event::Byte(*b));
    }
    assert!(matches!(last, Action::Acknowledge));
    assert!(matches!(snk.step(Event::Done), Action::Abort(Fault::BadHeader(HeaderError::FieldCount(2)))));
}

#[test]
fn sink_faults_while_receiving() {
    let mut snk = SinkSession::new(false);
    snk.step(Event::Done);
    snk.step(Event::Done);
    snk.step(Event::Byte(b'C'));
    for b in b"0644 4 f\n" {
        snk.step(Event::Byte(*b));
    }
    snk.step(Event::Done);
    assert!(matches!(snk.step(Event::Done), Action::ReadStream(4)));
    assert!(matches!(snk.step(Event::Data(b"ab".to_vec())), Action::WriteFile(d) if d == b"ab".to_vec()));
    assert!(matches!(snk.step(Event::Done), Action::ReadStream(2)));
    assert!(matches!(snk.step(Event::Data(Vec::new())), Action::Abort(Fault::EmptyRead)));
    assert!(matches!(snk.step(Event::Done), Action::Abort(Fault::UnexpectedEvent)));
}

fn sink_at_data(header: &[u8]) -> SinkSession {
    let mut snk = SinkSession::new(false);
    snk.step(Event::Done);
    snk.step(Event::Done);
    snk.step(Event::Byte(b'C'));
    for b in header {
        snk.step(Event::Byte(*b));
    }
    snk.step(Event::Done);
    snk
}

#[test]
fn sink_takes_only_the_announced_bytes() {
    let mut snk = sink_at_data(b"0644 2 a.txt\n");
    assert!(matches!(snk.step(Event::Done), Action::ReadStream(2)));
    assert!(matches!(snk.step(Event::Data(b"hi".to_vec())), Action::WriteFile(d) if d == b"hi".to_vec()));
    assert!(matches!(snk.step(Event::Done), Action::SyncFile));
    assert!(matches!(snk.step(Event::Done), Action::Acknowledge));
    assert!(matches!(snk.step(Event::Done), Action::Finish(Ok(()))));
    let mut snk = sink_at_data(b"0644 2 a.txt\n");
    snk.step(Event::Done);
    assert!(matches!(snk.step(Event::Data(b"hiXY".to_vec())), Action::Abort(Fault::UnexpectedEvent)));
    let mut snk = sink_at_data(b"0644 10000 big\n");
    assert!(matches!(snk.step(Event::Done), Action::ReadStream(CHUNK)));
}
