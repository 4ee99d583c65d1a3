use site::connection::{on_frame, take_reply, Frame, ReaderAction};

fn text(s: &str) -> Frame {
    Frame::Text(s.to_string())
}

fn describe(frames: &[Frame]) -> Vec<String> {
    frames
        .iter()
        .map(|f| match f {
            Frame::Text(t) => t.clone(),
            Frame::Pong(_) => "<pong>".to_string(),
            Frame::Ping(_) => "<ping>".to_string(),
            Frame::Binary(_) => "<binary>".to_string(),
            Frame::Close => "<close>".to_string(),
        })
        .collect()
}

#[test]
fn close_and_binary_stop_the_reader() {
    let mut buf = Vec::new();
    assert!(matches!(on_frame(&mut buf, Frame::Close), ReaderAction::Stop));
    assert!(matches!(on_frame(&mut buf, Frame::Binary(vec![1, 2])), ReaderAction::Stop));
    assert!(buf.is_empty());
}

#[test]
fn log_command_goes_to_the_sink_not_the_buffer() {
    let mut buf = Vec::new();
    match on_frame(&mut buf, text("Log disk full")) {
        ReaderAction::Log(line) => assert_eq!(line, "disk full"),
        _ => panic!("expected a log line"),
    }
    match on_frame(&mut buf, text("Log")) {
        ReaderAction::Log(line) => assert_eq!(line, "-- no log body sent --"),
        _ => panic!("expected a log line"),
    }
    assert!(buf.is_empty());
}

#[test]
fn malformed_command_is_dropped_and_reading_goes_on() {
    let mut buf = Vec::new();
    assert!(matches!(on_frame(&mut buf, text("Bogus verb")), ReaderAction::Drop));
    assert!(matches!(on_frame(&mut buf, Frame::Ping(vec![])), ReaderAction::Drop));
    assert!(buf.is_empty());
    assert!(matches!(on_frame(&mut buf, text("Response ok")), ReaderAction::Buffered));
    assert_eq!(buf.len(), 1);
}

#[test]
fn buffered_frames_keep_their_order() {
    let mut buf = Vec::new();
    let sent = vec![
        text("Response 1"),
        text("Log skipped"),
        Frame::Pong(vec![]),
        text("Bogus"),
        text("Discord 2"),
        text("Response 3"),
    ];
    for f in sent {
        on_frame(&mut buf, f);
    }
    assert_eq!(describe(&buf), vec!["Response 1", "<pong>", "Discord 2", "Response 3"]);
}

#[test]
fn scan_takes_replies_and_puts_the_rest_back_in_order() {
    let mut buf = vec![text("Response a"), Frame::Pong(vec![]), text("Response b"), Frame::Pong(vec![9])];
    assert!(take_reply(&mut buf));
    assert_eq!(describe(&buf), vec!["Response a", "Response b"]);
    assert!(!take_reply(&mut buf));
    assert_eq!(describe(&buf), vec!["Response a", "Response b"]);
}

#[test]
fn scan_of_empty_buffer_finds_nothing() {
    let mut buf: Vec<Frame> = Vec::new();
    assert!(!take_reply(&mut buf));
    assert!(buf.is_empty());
}
