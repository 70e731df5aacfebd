use telemetry_core::frame::FrameSync;

const START: [u8; 4] = [0x2F, 0x2F, 0x2F, 0x2F];
const STOP: [u8; 4] = [0x5C, 0x5C, 0x5C, 0x5C];

fn feed(sync: &mut FrameSync, bytes: &[u8]) -> Vec<Vec<u8>> {
    let mut frames = Vec::new();
    for &b in bytes {
        if let Some(f) = sync.push_byte(b) {
            frames.push(f);
        }
    }
    frames
}

#[test]
fn garbage_framed_payload_garbage_emits_payload_alone() {
    let payload: Vec<u8> = vec![1, 2, 3, 4, 5, 6, 7, 8, 9, 10, 11, 12];
    let mut stream: Vec<u8> = Vec::new();
    stream.extend_from_slice(&[0xAA, 0xBB, 0xCC, 0xDD, 0x10, 0x20, 0x30, 0x40]);
    stream.extend_from_slice(&START);
    stream.extend_from_slice(&payload);
    stream.extend_from_slice(&STOP);
    stream.extend_from_slice(&[0x55, 0x66, 0x77]);
    let mut sync = FrameSync::new();
    let frames = feed(&mut sync, &stream);
    assert_eq!(frames.len(), 1);
    assert_eq!(frames[0], payload);
}

#[test]
fn double_start_keeps_capturing_and_grows_buffer() {
    let mut sync = FrameSync::new();
    let mut stream: Vec<u8> = Vec::new();
    stream.extend_from_slice(&START);
    stream.extend_from_slice(&START);
    assert_eq!(feed(&mut sync, &stream).len(), 0);
    // the second START was captured into the buffer: closing the frame now
    // emits it along with the payload that follows it
    let payload: Vec<u8> = vec![1, 2, 3, 4, 5, 6, 7, 8];
    let mut tail: Vec<u8> = Vec::new();
    tail.extend_from_slice(&payload);
    tail.extend_from_slice(&STOP);
    let frames = feed(&mut sync, &tail);
    assert_eq!(frames.len(), 1);
    let mut expected: Vec<u8> = Vec::new();
    expected.extend_from_slice(&START);
    expected.extend_from_slice(&payload);
    assert_eq!(frames[0], expected);
}

#[test]
fn short_candidate_is_discarded_silently() {
    // STOP arrives only 4 payload bytes into the frame: too short to be a
    // frame, so nothing is emitted and no error surfaces
    let mut stream: Vec<u8> = Vec::new();
    stream.extend_from_slice(&START);
    stream.extend_from_slice(&[9, 9, 9, 9]);
    stream.extend_from_slice(&STOP);
    let mut sync = FrameSync::new();
    assert_eq!(feed(&mut sync, &stream).len(), 0);
}

#[test]
fn frame_may_span_chunks() {
    let payload: Vec<u8> = vec![1, 2, 3, 4, 5, 6, 7, 8];
    let mut stream: Vec<u8> = Vec::new();
    stream.extend_from_slice(&START);
    stream.extend_from_slice(&payload);
    stream.extend_from_slice(&STOP);
    let mut sync = FrameSync::new();
    let mut frames = Vec::new();
    let (first, second) = stream.split_at(7);
    frames.extend(feed(&mut sync, first));
    frames.extend(feed(&mut sync, second));
    assert_eq!(frames.len(), 1);
    assert_eq!(frames[0], payload);
}

#[test]
fn unaligned_start_is_not_recognized() {
    // a START pattern straddling two alignment windows is not a marker
    let mut stream: Vec<u8> = Vec::new();
    stream.extend_from_slice(&[0x00, 0x00, 0x2F, 0x2F]);
    stream.extend_from_slice(&[0x2F, 0x2F, 0x00, 0x00]);
    let mut sync = FrameSync::new();
    assert_eq!(feed(&mut sync, &stream).len(), 0);
}
