use rcfakeclient::framing::{
    ByteReciever, Directions, FrameEvent, FramingError, DEFAULT_MAX_FRAME_LEN,
};

fn payload(event: FrameEvent) -> Vec<u8> {
    match event {
        FrameEvent::Payload(bytes) => bytes,
        other => panic!("no payload: {:?}", other),
    }
}

#[test]
fn reassembles_one_incoming_frame() {
    let mut stream = ByteReciever::new();
    stream.push(&[0xFB, 0x00, 0x00, 0x00, 0x0D, 0xAA, 0xBB, 0xCC, 0xDD, 0xEE]);
    assert!(matches!(stream.incoming_step(DEFAULT_MAX_FRAME_LEN, false), FrameEvent::NeedMore));
    assert_eq!(stream.len(), 10);
    stream.push(&[0x01, 0x02, 0x03]);
    let got = payload(stream.incoming_step(DEFAULT_MAX_FRAME_LEN, false));
    assert_eq!(got, vec![0xCC, 0xDD, 0xEE, 0x01, 0x02, 0x03]);
    assert_eq!(stream.len(), 0);
    stream.push(&[0xFB, 0x00, 0x00, 0x00, 0x0A, 0xAA, 0xBB, 0xCC, 0xDD, 0xEE]);
    let got = payload(stream.incoming_step(DEFAULT_MAX_FRAME_LEN, false));
    assert_eq!(got, vec![0xCC, 0xDD, 0xEE]);
}

#[test]
fn reassembles_one_outgoing_frame() {
    let mut stream = ByteReciever::new();
    stream.push(&[0xFB, 0x00, 0x00, 0x00, 0x0A, 0x11, 0x22, 0xF3, 0x02, 0x2A, 0x99]);
    let got = payload(stream.outgoing_step(DEFAULT_MAX_FRAME_LEN, false));
    assert_eq!(got, vec![0xF3, 0x02, 0x2A]);
    assert_eq!(stream.buf, vec![0x99]);
}

#[test]
fn a_frame_of_the_header_only_does_no_harm() {
    let mut incoming = ByteReciever::new();
    incoming.push(&[0xFB, 0x00, 0x00, 0x00, 0x09, 0xAA, 0xBB, 0xF3, 0x00]);
    let got = payload(incoming.incoming_step(DEFAULT_MAX_FRAME_LEN, false));
    assert_eq!(got, vec![0xF3, 0x00]);
    assert_eq!(incoming.len(), 0);
    let mut outgoing = ByteReciever::new();
    outgoing.push(&[0xFB, 0x00, 0x00, 0x00, 0x05]);
    let got = payload(outgoing.outgoing_step(DEFAULT_MAX_FRAME_LEN, false));
    assert_eq!(got, Vec::<u8>::new());
    assert_eq!(outgoing.len(), 0);
    outgoing.push(&[0xFB, 0x00, 0x00, 0x00, 0x06, 0x01]);
    assert_eq!(payload(outgoing.outgoing_step(DEFAULT_MAX_FRAME_LEN, false)), Vec::<u8>::new());
    outgoing.push(&[0xFB, 0x00, 0x00, 0x00, 0x07, 0x01, 0x02]);
    assert_eq!(payload(outgoing.outgoing_step(DEFAULT_MAX_FRAME_LEN, false)), Vec::<u8>::new());
    outgoing.push(&[0xFB, 0x00, 0x00, 0x00, 0x08, 0x01, 0x02, 0x03]);
    assert_eq!(payload(outgoing.outgoing_step(DEFAULT_MAX_FRAME_LEN, false)), vec![0x03]);
}

#[test]
fn a_header_without_the_magic_byte_is_dropped() {
    let mut incoming = ByteReciever::new();
    incoming.push(&[0x00, 1, 2, 3, 4, 5, 6, 7, 8, 0xFB, 0, 0, 0, 9, 0, 0, 0xF3, 0x04]);
    assert!(matches!(incoming.incoming_step(DEFAULT_MAX_FRAME_LEN, false), FrameEvent::Skipped));
    assert_eq!(incoming.len(), 9);
    assert_eq!(payload(incoming.incoming_step(DEFAULT_MAX_FRAME_LEN, false)), vec![0xF3, 0x04]);
    let mut outgoing = ByteReciever::new();
    outgoing.push(&[0x00, 1, 2, 3, 4, 5]);
    assert!(matches!(outgoing.outgoing_step(DEFAULT_MAX_FRAME_LEN, false), FrameEvent::Skipped));
    assert_eq!(outgoing.buf, vec![5]);
}

#[test]
fn framing_errors_are_reported() {
    let mut stream = ByteReciever::new();
    stream.push(&[0xFB, 0x00, 0x00, 0x00, 0x08, 0, 0, 0, 0]);
    assert!(matches!(
        stream.incoming_step(DEFAULT_MAX_FRAME_LEN, false),
        FrameEvent::Failed(FramingError::NegativeLength)
    ));
    assert_eq!(stream.len(), 9);
    assert!(matches!(
        stream.incoming_step(DEFAULT_MAX_FRAME_LEN, false),
        FrameEvent::Failed(FramingError::NegativeLength)
    ));
    let mut stream = ByteReciever::new();
    stream.push(&[0xFB, 0xFF, 0xFF, 0xFF, 0xFF, 0]);
    assert!(matches!(
        stream.outgoing_step(DEFAULT_MAX_FRAME_LEN, false),
        FrameEvent::Failed(FramingError::NegativeLength)
    ));
    let mut stream = ByteReciever::new();
    stream.push(&[0xFB, 0x01, 0x00, 0x00, 0x01, 0]);
    assert!(matches!(
        stream.outgoing_step(DEFAULT_MAX_FRAME_LEN, false),
        FrameEvent::Failed(FramingError::Oversized)
    ));
    let mut stream = ByteReciever::new();
    stream.push(&[0xFB, 0x01, 0x00, 0x00, 0x00, 0]);
    assert!(matches!(
        stream.outgoing_step(DEFAULT_MAX_FRAME_LEN, false),
        FrameEvent::NeedMore
    ));
    assert!(matches!(stream.outgoing_step(100, false), FrameEvent::Failed(FramingError::Oversized)));
}

#[test]
fn the_end_of_the_stream_is_clean_between_frames_only() {
    let mut stream = ByteReciever::new();
    assert!(matches!(stream.incoming_step(DEFAULT_MAX_FRAME_LEN, true), FrameEvent::EndOfStream));
    stream.push(&[0xFB, 0x00, 0x00]);
    assert!(matches!(stream.incoming_step(DEFAULT_MAX_FRAME_LEN, false), FrameEvent::NeedMore));
    assert!(matches!(stream.incoming_step(DEFAULT_MAX_FRAME_LEN, true), FrameEvent::EndOfStream));
    let mut stream = ByteReciever::new();
    stream.push(&[0xFB, 0x00, 0x00, 0x00, 0x0B, 0, 0, 0, 0, 0]);
    assert!(matches!(stream.incoming_step(DEFAULT_MAX_FRAME_LEN, false), FrameEvent::NeedMore));
    assert!(matches!(
        stream.incoming_step(DEFAULT_MAX_FRAME_LEN, true),
        FrameEvent::Failed(FramingError::ShortRead)
    ));
}

#[test]
fn frames_do_not_depend_on_how_the_stream_is_cut() {
    let stream: Vec<u8> = vec![
        0xFB, 0, 0, 0, 0x0A, 1, 2, 0xA1, 0xA2, 0xA3, // frame of ten bytes
        0x00, 9, 9, 9, 9, // dropped header
        0xFB, 0, 0, 0, 0x05, // empty frame
        0xFB, 0, 0, 0, 0x09, 3, 4, 0xB1, 0xB2, // frame of nine bytes
    ];
    let whole = {
        let mut r = ByteReciever::new();
        r.push(&stream);
        drain(&mut r)
    };
    assert_eq!(whole, vec![vec![0xA1, 0xA2, 0xA3], vec![], vec![0xB1, 0xB2]]);
    for chunk in 1..7 {
        let mut r = ByteReciever::new();
        let mut frames = Vec::new();
        for piece in stream.chunks(chunk) {
            r.push(piece);
            r.push(&[]);
            frames.extend(drain(&mut r));
        }
        assert_eq!(frames, whole, "chunks of {}", chunk);
    }
}

fn drain(stream: &mut ByteReciever) -> Vec<Vec<u8>> {
    let mut frames = Vec::new();
    loop {
        match stream.outgoing_step(DEFAULT_MAX_FRAME_LEN, false) {
            FrameEvent::Payload(bytes) => frames.push(bytes),
            FrameEvent::Skipped => {}
            FrameEvent::NeedMore => return frames,
            other => panic!("unexpected {:?}", other),
        }
    }
}

#[test]
fn segments_are_filed_under_their_direction() {
    let mut directions = Directions::new();
    directions.accept(4533, 50000, &[1, 2]);
    directions.accept(50000, 4533, &[3]);
    directions.accept(80, 443, &[4]);
    directions.accept(4533, 50000, &[5]);
    directions.accept(4533, 4533, &[6]);
    assert_eq!(directions.incoming.buf, vec![1, 2, 5, 6]);
    assert_eq!(directions.outgoing.buf, vec![3, 6]);
}

#[test]
fn a_direction_does_not_depend_on_the_other() {
    let frame = [0xFB, 0, 0, 0, 0x0A, 0, 0, 0xF3, 0x04, 0x07];
    let mut quiet = Directions::new();
    quiet.accept(4533, 50000, &frame[..4]);
    quiet.accept(4533, 50000, &frame[4..]);
    let mut busy = Directions::new();
    busy.accept(50000, 4533, &[0xFB, 0, 0]);
    busy.accept(4533, 50000, &frame[..4]);
    busy.accept(50000, 4533, &[0, 5, 9, 9, 9]);
    busy.accept(4533, 50000, &frame[4..]);
    busy.accept(50000, 4533, &[0x00]);
    assert_eq!(quiet.incoming.buf, busy.incoming.buf);
    let a = payload(quiet.incoming.incoming_step(DEFAULT_MAX_FRAME_LEN, false));
    let b = payload(busy.incoming.incoming_step(DEFAULT_MAX_FRAME_LEN, false));
    assert_eq!(a, b);
    assert_eq!(a, vec![0xF3, 0x04, 0x07]);
}

#[test]
fn a_direction_holds_no_more_than_its_bound() {
    let mut stream = ByteReciever::new();
    assert_eq!(stream.push_within(&[1, 2, 3], 4), Ok(()));
    assert_eq!(stream.push_within(&[4, 5], 4), Err(FramingError::BufferFull));
    assert_eq!(stream.buf, vec![1, 2, 3]);
    assert_eq!(stream.push_within(&[4], 4), Ok(()));
    assert_eq!(stream.push_within(&[], 4), Ok(()));
    assert_eq!(stream.buf, vec![1, 2, 3, 4]);
    assert_eq!(stream.push_within(&[5], 4), Err(FramingError::BufferFull));
    assert_eq!(stream.push_within(&[0; 8], usize::MAX), Ok(()));
    assert_eq!(stream.len(), 12);
}
