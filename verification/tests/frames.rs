use don::writer::{next_step, FrameSink, Msg, WriterStep};

/// Runs the writer over what was queued, and counts what it reports.
fn reported(queue: Vec<Msg>, abandoned: bool) -> usize {
    let mut reported = 0;
    for msg in queue {
        match next_step(msg, abandoned) {
            WriterStep::Write(_) | WriterStep::Skip => reported += 1,
            WriterStep::End => return reported,
        }
    }
    reported
}

#[test]
fn a_frame_is_one_message_released_by_its_flush() {
    let mut sink = FrameSink::new();

    assert_eq!(sink.write(&b"abc".to_vec()), 3);
    assert_eq!(sink.write(&b"def".to_vec()), 3);

    match sink.flush() {
        Msg::Bytes(frame) => assert_eq!(frame, b"abcdef"),
        Msg::Stop => panic!("a flush is not a stop"),
    }

    match sink.flush() {
        Msg::Bytes(frame) => assert!(frame.is_empty(), "empty frame, still announced"),
        Msg::Stop => panic!("a flush is not a stop"),
    }
}

#[test]
fn each_written_frame_is_reported_once() {
    let mut sink = FrameSink::new();
    let mut queue = Vec::new();

    for _ in 0..3 {
        sink.write(&b"x".to_vec());
        queue.push(sink.flush());
    }
    queue.push(Msg::Bytes(b"osc".to_vec()));
    queue.push(Msg::Stop);

    assert_eq!(reported(queue, false), 4, "three frames and the out-of-band write");
}

#[test]
fn frames_not_begun_are_dropped_once_the_screen_is_given_back() {
    assert!(matches!(next_step(Msg::Bytes(b"x".to_vec()), true), WriterStep::Skip));
    assert!(matches!(
        next_step(Msg::Bytes(b"x".to_vec()), false),
        WriterStep::Write(frame) if frame == b"x"
    ));
    assert!(matches!(next_step(Msg::Stop, true), WriterStep::End));
    assert_eq!(reported(vec![Msg::Bytes(Vec::new()), Msg::Stop, Msg::Bytes(Vec::new())], true), 1);
}
