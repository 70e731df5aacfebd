use telemetry_core::codec::FixedValue;
use telemetry_core::decoder::{ascii_hex_string, get_structured_message_data, Utf8Lossy};
use telemetry_core::message::{
    get_hex_from_chunk, get_length_of_message_data, get_message_inner_part,
};
use telemetry_core::record::{VariableEntry, VariableRecord};

#[test]
fn ascii_bytes_pass_through() {
    assert_eq!(ascii_hex_string(b"AB01"), "AB01");
}

#[test]
fn non_ascii_bytes_render_as_uppercase_hex() {
    assert_eq!(ascii_hex_string(&[0x41, 0x7A, 0xFF, 0x80]), "Az0xFF0x80");
    assert_eq!(Utf8Lossy(&[0xAB]).to_display_string(), "0xAB");
}

#[test]
fn hex_chunk_reads_big_endian() {
    assert_eq!(get_hex_from_chunk(&[0x2F, 0x2F, 0x2F, 0x2F]), 0x2F2F_2F2F);
    assert_eq!(get_hex_from_chunk(&[0xDE, 0xAD]), 0xDEAD);
    assert_eq!(get_hex_from_chunk(&[]), 0);
    // a value that no longer fits in 32 bits reads as 0
    assert_eq!(get_hex_from_chunk(&[0x01, 0x00, 0x00, 0x00, 0x00]), 0);
    // leading zero bytes do not overflow
    assert_eq!(get_hex_from_chunk(&[0x00, 0x00, 0x00, 0x00, 0x01]), 1);
}

#[test]
fn length_field_is_reversed_and_clamped() {
    let data: Vec<u8> = vec![0x05, 0x00, 0x00, 0x00, 0xAA];
    assert_eq!(get_length_of_message_data(&data), 5);
    let big: Vec<u8> = vec![0xFF, 0xFF, 0xFF, 0xFF];
    assert_eq!(get_length_of_message_data(&big), 256);
    let exact: Vec<u8> = vec![0x00, 0x01, 0x00, 0x00];
    assert_eq!(get_length_of_message_data(&exact), 256);
    let below: Vec<u8> = vec![0xFF, 0x00, 0x00, 0x00];
    assert_eq!(get_length_of_message_data(&below), 255);
}

#[test]
fn inner_part_strips_length_and_trailing_groups() {
    let data: Vec<u8> = (0u8..20).collect();
    let inner = get_message_inner_part(&data);
    assert_eq!(inner, (4u8..12).collect::<Vec<u8>>());
}

#[test]
fn inner_part_of_short_frame_is_empty() {
    for n in 0..12usize {
        let data: Vec<u8> = vec![1u8; n];
        assert!(get_message_inner_part(&data).is_empty());
    }
}

#[test]
fn structured_data_decodes_each_whole_chunk() {
    // frame: length field, one chunk (id "AB01", value 2.5), indicator,
    // checksum group — the decoder itself does not check the CRC
    let mut data: Vec<u8> = vec![0x02, 0x00, 0x00, 0x00];
    data.extend_from_slice(&[0x31, 0x30, 0x42, 0x41, 0x00, 0x40, 0x01, 0x00]);
    data.extend_from_slice(&[0x40, 0x43, 0x52, 0x43]);
    data.extend_from_slice(&[0x25, 0x00, 0x00, 0x00]);
    let rec = get_structured_message_data(&data);
    assert_eq!(rec.len(), 1);
    assert_eq!(rec.entry_at(0).id, "AB01");
    assert_eq!(rec.entry_at(0).value.int_part, 2);
    assert_eq!(rec.entry_at(0).value.frac_num, 0x4000);
}

#[test]
fn trailing_partial_chunk_is_ignored() {
    // 12 inner bytes: one whole 8-byte chunk and a 4-byte remainder
    let mut data: Vec<u8> = vec![0x00, 0x00, 0x00, 0x00];
    data.extend_from_slice(&[0x31, 0x30, 0x42, 0x41, 0x00, 0x40, 0x01, 0x00]);
    data.extend_from_slice(&[0x99, 0x98, 0x97, 0x96]);
    data.extend_from_slice(&[0x40, 0x43, 0x52, 0x43]);
    data.extend_from_slice(&[0x00, 0x00, 0x00, 0x00]);
    let rec = get_structured_message_data(&data);
    assert_eq!(rec.len(), 1);
    assert_eq!(rec.entry_at(0).id, "AB01");
}

#[test]
fn duplicate_ids_overwrite_on_lookup_but_keep_order() {
    let rec = VariableRecord {
        entries: vec![
            VariableEntry {
                id: "AB01".to_string(),
                value: FixedValue { int_part: 1, frac_num: 0 },
            },
            VariableEntry {
                id: "AB02".to_string(),
                value: FixedValue { int_part: 2, frac_num: 0 },
            },
            VariableEntry {
                id: "AB01".to_string(),
                value: FixedValue { int_part: 3, frac_num: 0 },
            },
        ],
    };
    assert_eq!(rec.len(), 3);
    assert_eq!(rec.get(&"AB01".to_string()).unwrap().int_part, 3);
    assert_eq!(rec.get(&"AB02".to_string()).unwrap().int_part, 2);
    assert!(rec.get(&"AB99".to_string()).is_none());
    assert_eq!(rec.entry_at(0).value.int_part, 1);
}
