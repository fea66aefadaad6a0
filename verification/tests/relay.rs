use termproxy::buffer::ByteBuffer;
use termproxy::relay::{Action, Endpoint, Failure, Input, ReadOutcome, Readiness, Relay, WriteOutcome};

fn buffer_with(data: &[u8]) -> ByteBuffer {
    let mut buf = ByteBuffer::new();
    buf.extend_from_slice(data);
    buf
}

#[test]
fn relay_runs_a_whole_session() {
    let mut relay = Relay::new(buffer_with(b"0:5:hello1:100:30:"));
    assert_eq!(relay.resume(Input::Start), Action::Poll { block: false });
    assert_eq!(relay.resume(Input::Polled(vec![])), Action::ReadClient { max: 4096 - 18 });
    assert_eq!(
        relay.resume(Input::Read(ReadOutcome::WouldBlock)),
        Action::ReadTerminal { max: 4096 }
    );
    assert_eq!(
        relay.resume(Input::Read(ReadOutcome::Data(b"$ ".to_vec()))),
        Action::ReadTerminal { max: 4094 }
    );
    assert_eq!(
        relay.resume(Input::Read(ReadOutcome::WouldBlock)),
        Action::WriteClient(b"$ ".to_vec())
    );
    assert_eq!(
        relay.resume(Input::Wrote(WriteOutcome::Written(2))),
        Action::WriteTerminal(b"hello".to_vec())
    );
    assert_eq!(
        relay.resume(Input::Wrote(WriteOutcome::Written(3))),
        Action::WriteTerminal(b"lo".to_vec())
    );
    assert_eq!(
        relay.resume(Input::Wrote(WriteOutcome::Written(2))),
        Action::Resize { cols: 100, rows: 30 }
    );
    assert_eq!(relay.resume(Input::Resized(true)), Action::Poll { block: true });
    let closed = Readiness {
        endpoint: Endpoint::Client,
        readable: true,
        writable: false,
        read_closed: true,
    };
    assert_eq!(relay.resume(Input::Polled(vec![closed])), Action::ReadClient { max: 4096 });
    assert_eq!(relay.resume(Input::Read(ReadOutcome::Data(vec![]))), Action::Finish);
}

#[test]
fn relay_fails_on_read_error_before_the_end() {
    let mut relay = Relay::new(ByteBuffer::new());
    assert_eq!(relay.resume(Input::Start), Action::Poll { block: false });
    assert_eq!(relay.resume(Input::Polled(vec![])), Action::ReadClient { max: 4096 });
    assert_eq!(
        relay.resume(Input::Read(ReadOutcome::Failed)),
        Action::Fail(Failure::ReadClient)
    );
}

#[test]
fn relay_ignores_write_error_after_the_end() {
    let mut relay = Relay::new(ByteBuffer::new());
    assert_eq!(relay.resume(Input::Start), Action::Poll { block: false });
    let closed = Readiness {
        endpoint: Endpoint::Terminal,
        readable: false,
        writable: false,
        read_closed: true,
    };
    assert_eq!(relay.resume(Input::Polled(vec![closed])), Action::ReadClient { max: 4096 });
    assert_eq!(
        relay.resume(Input::Read(ReadOutcome::Data(b"x".to_vec()))),
        Action::ReadClient { max: 4095 }
    );
    assert_eq!(
        relay.resume(Input::Read(ReadOutcome::WouldBlock)),
        Action::ReadTerminal { max: 4096 }
    );
    assert_eq!(
        relay.resume(Input::Read(ReadOutcome::Data(b"bye".to_vec()))),
        Action::ReadTerminal { max: 4093 }
    );
    assert_eq!(
        relay.resume(Input::Read(ReadOutcome::WouldBlock)),
        Action::WriteClient(b"bye".to_vec())
    );
    assert_eq!(relay.resume(Input::Wrote(WriteOutcome::Failed)), Action::Finish);
}

#[test]
fn relay_stops_writing_to_terminal_when_resize_fails() {
    let mut relay = Relay::new(buffer_with(b"1:80:24:"));
    assert_eq!(relay.resume(Input::Start), Action::Poll { block: false });
    assert_eq!(relay.resume(Input::Polled(vec![])), Action::ReadClient { max: 4096 - 8 });
    assert_eq!(
        relay.resume(Input::Read(ReadOutcome::WouldBlock)),
        Action::ReadTerminal { max: 4096 }
    );
    assert_eq!(
        relay.resume(Input::Read(ReadOutcome::WouldBlock)),
        Action::Resize { cols: 80, rows: 24 }
    );
    assert_eq!(relay.resume(Input::Resized(false)), Action::Poll { block: true });
}
