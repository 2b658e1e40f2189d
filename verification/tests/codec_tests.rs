use miitable::codec::{decode_record, decode_table, encode_record, encode_table, CodecError};
use miitable::level::Level;

fn zero_level() -> Level {
    Level {
        num_miis: 0,
        behavior: 0,
        level_type: 0,
        map: 0,
        zoom_out_max: 0,
        zoom_in_max: 0,
        unk7: 0,
        horiz_dist: 0,
        vert_dist: 0,
        darkness: 0,
        head_size: 0,
        unk12: 0,
        unk13: 0,
        unk14: 0,
        unk15: 0,
        unk16: 0,
    }
}

#[test]
fn decode_all_zero_record_gives_zero_level() {
    let bytes = vec![0u8; 64];
    let level = decode_record(&bytes).unwrap();
    assert_eq!(level, zero_level());
    let back = encode_record(&level);
    assert_eq!(back, bytes);
}

#[test]
fn decode_reads_big_endian_words_at_fixed_offsets() {
    let mut bytes = vec![0u8; 64];
    // num_miis at offset 0
    bytes[3] = 5;
    // level_type at offset 8
    bytes[8] = 0x12;
    bytes[9] = 0x34;
    bytes[10] = 0x56;
    bytes[11] = 0x78;
    // darkness at offset 36
    bytes[36] = 0x42;
    bytes[37] = 0x18;
    let level = decode_record(&bytes).unwrap();
    assert_eq!(level.num_miis, 5);
    assert_eq!(level.level_type, 0x12345678);
    assert_eq!(level.darkness, 0x42180000);
    assert_eq!((38.0f32).to_bits(), 0x42180000);
}

#[test]
fn record_roundtrip_from_bytes() {
    let mut bytes = Vec::new();
    for i in 0..64u32 {
        bytes.push((i * 37 + 11) as u8);
    }
    let level = decode_record(&bytes).unwrap();
    let back = encode_record(&level);
    assert_eq!(back, bytes);
}

#[test]
fn record_roundtrip_from_level_keeps_every_bit_pattern() {
    let nan_bits = f32::NAN.to_bits();
    let level = Level {
        num_miis: 99,
        behavior: 6,
        level_type: 21,
        map: 4,
        zoom_out_max: (-406.0f32).to_bits(),
        zoom_in_max: (-22.0f32).to_bits(),
        unk7: nan_bits,
        horiz_dist: f32::INFINITY.to_bits(),
        vert_dist: f32::NEG_INFINITY.to_bits(),
        darkness: (90.0f32).to_bits(),
        head_size: (1.35f32).to_bits(),
        unk12: 0xFFFFFFFF,
        unk13: 1,
        unk14: 0x80000000,
        unk15: u32::MAX - 1,
        unk16: 0xDEADBEEF,
    };
    let bytes = encode_record(&level);
    assert_eq!(bytes.len(), 64);
    let back = decode_record(&bytes).unwrap();
    assert_eq!(back, level);
}

#[test]
fn encode_places_float_bits_big_endian() {
    let mut level = zero_level();
    level.zoom_out_max = (-406.0f32).to_bits();
    let bytes = encode_record(&level);
    assert_eq!(&bytes[16..20], &[0xC3, 0xCB, 0x00, 0x00]);
}

#[test]
fn decode_record_rejects_short_buffer() {
    let bytes = vec![0u8; 63];
    assert_eq!(decode_record(&bytes), Err(CodecError::TruncatedRecord));
}

#[test]
fn decode_table_rejects_trailing_partial_record() {
    let bytes = vec![0u8; 65];
    assert_eq!(decode_table(&bytes), Err(CodecError::TruncatedRecord));
    let bytes = vec![1u8; 64 + 63];
    assert_eq!(decode_table(&bytes), Err(CodecError::TruncatedRecord));
}

#[test]
fn decode_table_of_empty_stream_gives_zero_records() {
    let bytes: Vec<u8> = Vec::new();
    let table = decode_table(&bytes).unwrap();
    assert_eq!(table.len(), 0);
}

#[test]
fn table_roundtrip_concatenates_records_in_order() {
    let mut a = zero_level();
    a.num_miis = 7;
    let mut b = zero_level();
    b.num_miis = 13;
    b.map = 4;
    let table = vec![a, b];
    let bytes = encode_table(&table);
    assert_eq!(bytes.len(), 128);
    assert_eq!(&bytes[0..64], &encode_record(&a)[..]);
    assert_eq!(&bytes[64..128], &encode_record(&b)[..]);
    let back = decode_table(&bytes).unwrap();
    assert_eq!(back, table);
}
