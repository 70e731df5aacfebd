use telemetry_core::codec::FixedValue;
use telemetry_core::control::ControlGate;
use telemetry_core::crc::{crc8_table, crc_compute};
use telemetry_core::frame::FrameSync;
use telemetry_core::pipeline::{ingest_step, process_chunk, validate_and_decode};
use telemetry_core::record::VariableRecord;

const START: [u8; 4] = [0x2F, 0x2F, 0x2F, 0x2F];
const STOP: [u8; 4] = [0x5C, 0x5C, 0x5C, 0x5C];

fn as_f64(v: FixedValue) -> f64 {
    v.int_part as f64 + v.frac_num as f64 / 32768.0
}

/// A finalized frame around `chunks`: length field counting 4-byte units,
/// stored least-significant byte first, then the chunk bytes, a 4-byte
/// indicator group, and the checksum group `[crc, 0, 0, 0]`.
fn build_frame(chunks: &[u8]) -> Vec<u8> {
    let table = crc8_table();
    let crc = crc_compute(&chunks.to_vec(), &table);
    let units = (chunks.len() / 4) as u32;
    let mut frame: Vec<u8> = Vec::new();
    frame.extend_from_slice(&[units as u8, (units >> 8) as u8, (units >> 16) as u8, (units
        >> 24) as u8]);
    frame.extend_from_slice(chunks);
    frame.extend_from_slice(&[0x40, 0x43, 0x52, 0x43]);
    frame.extend_from_slice(&[crc, 0x00, 0x00, 0x00]);
    frame
}

fn frame_to_stream(frame: &[u8]) -> Vec<u8> {
    let mut stream: Vec<u8> = Vec::new();
    stream.extend_from_slice(&START);
    stream.extend_from_slice(frame);
    stream.extend_from_slice(&STOP);
    stream
}

// id bytes arrive least-significant first: reversed they read "AB01"; the
// value bytes reversed read 0x00014000, the Q16.15 encoding of 2.5
const CHUNK_AB01: [u8; 8] = [0x31, 0x30, 0x42, 0x41, 0x00, 0x40, 0x01, 0x00];

#[test]
fn end_to_end_one_record() {
    let table = crc8_table();
    let stream = frame_to_stream(&build_frame(&CHUNK_AB01));
    let mut sync = FrameSync::new();
    let records = process_chunk(&mut sync, &stream, &table);
    assert_eq!(records.len(), 1);
    let rec: &VariableRecord = &records[0];
    assert_eq!(rec.len(), 1);
    assert_eq!(rec.entry_at(0).id, "AB01");
    assert_eq!(as_f64(rec.entry_at(0).value), 2.5);
    let looked_up = rec.get(&"AB01".to_string()).expect("id must be present");
    assert_eq!(as_f64(looked_up), 2.5);
}

#[test]
fn corrupt_checksum_drops_frame_but_keeps_synchronizer_live() {
    let table = crc8_table();
    let mut bad = build_frame(&CHUNK_AB01);
    let crc_at = bad.len() - 4;
    bad[crc_at] ^= 0xFF;
    let mut stream = frame_to_stream(&bad);
    // a second, intact frame follows in the same byte stream
    stream.extend_from_slice(&frame_to_stream(&build_frame(&CHUNK_AB01)));
    let mut sync = FrameSync::new();
    let records = process_chunk(&mut sync, &stream, &table);
    assert_eq!(records.len(), 1);
    assert_eq!(records[0].entry_at(0).id, "AB01");
}

#[test]
fn wrong_declared_length_drops_frame() {
    let table = crc8_table();
    let mut frame = build_frame(&CHUNK_AB01);
    frame[0] = frame[0].wrapping_add(1);
    let stream = frame_to_stream(&frame);
    let mut sync = FrameSync::new();
    assert_eq!(process_chunk(&mut sync, &stream, &table).len(), 0);
}

#[test]
fn validate_and_decode_accepts_only_coherent_frames() {
    let table = crc8_table();
    let good = build_frame(&CHUNK_AB01);
    assert!(validate_and_decode(&good, &table).is_some());
    let mut bad = good.clone();
    bad[4] ^= 0x01;
    assert!(validate_and_decode(&bad, &table).is_none());
}

#[test]
fn paused_gate_halts_publishing_and_resume_needs_no_reinit() {
    let table = crc8_table();
    let stream = frame_to_stream(&build_frame(&CHUNK_AB01));
    let mut sync = FrameSync::new();
    let mut gate = ControlGate::new(false);
    // paused: although frames are available in the source buffer, no
    // read is issued and nothing comes out
    assert_eq!(ingest_step(&mut sync, &gate, &stream, &table).len(), 0);
    assert_eq!(ingest_step(&mut sync, &gate, &stream, &table).len(), 0);
    // running again: records flow, with no re-initialization needed
    gate.set(true);
    let records = ingest_step(&mut sync, &gate, &stream, &table);
    assert_eq!(records.len(), 1);
    assert_eq!(records[0].entry_at(0).id, "AB01");
}

#[test]
fn two_records_in_one_frame_in_chunk_order() {
    let table = crc8_table();
    let mut chunks: Vec<u8> = Vec::new();
    chunks.extend_from_slice(&CHUNK_AB01);
    // id "AB02", value 2.0
    chunks.extend_from_slice(&[0x32, 0x30, 0x42, 0x41, 0x00, 0x00, 0x01, 0x00]);
    let stream = frame_to_stream(&build_frame(&chunks));
    let mut sync = FrameSync::new();
    let records = process_chunk(&mut sync, &stream, &table);
    assert_eq!(records.len(), 1);
    let rec = &records[0];
    assert_eq!(rec.len(), 2);
    assert_eq!(rec.entry_at(0).id, "AB01");
    assert_eq!(rec.entry_at(1).id, "AB02");
    assert_eq!(as_f64(rec.entry_at(1).value), 2.0);
}
