use plotter::data::{read, Plot, Point, StoreError};

fn sample(height: u32, time: u64) -> Point {
    Point { height, time }
}

#[test]
fn round_trip_empty_sequence() {
    let bytes = plotter::data::write(&Plot { points: vec![] }).unwrap();
    assert_eq!(bytes, vec![0x0d, 0x01, 0x0a, 0x00, 0, 0, 0, 0]);
    let back = read(&bytes).unwrap();
    assert_eq!(back.points, vec![]);
}

#[test]
fn round_trip_single_point() {
    let points = vec![sample(12_500, 1_700_000_000_123)];
    let bytes = plotter::data::write(&Plot { points: points.clone() }).unwrap();
    let back = read(&bytes).unwrap();
    assert_eq!(back.points, points);
}

#[test]
fn round_trip_many_points() {
    let mut points = vec![];
    for k in 0..50u64 {
        points.push(sample((k * 997 % 60_000) as u32, 1_600_000_000_000 + k * 250));
    }
    points.push(sample(u32::MAX, u64::MAX));
    let bytes = plotter::data::write(&Plot { points: points.clone() }).unwrap();
    let back = read(&bytes).unwrap();
    assert_eq!(back.points, points);
}

#[test]
fn three_records_layout_and_order() {
    let t0: u64 = 1_700_000_000_000;
    let points = vec![sample(100, t0), sample(200, t0 + 1000), sample(300, t0 + 2000)];
    let bytes = plotter::data::write(&Plot { points: points.clone() }).unwrap();
    // Header and count field.
    assert_eq!(&bytes[0..4], &[0x0d, 0x01, 0x0a, 0x00]);
    assert_eq!(&bytes[4..8], &[0, 0, 0, 3]);
    assert_eq!(bytes.len(), 8 + 3 * 20);
    // Heights sit in the first four bytes of each 20-byte record.
    assert_eq!(&bytes[8..12], &[0, 0, 0, 100]);
    assert_eq!(&bytes[28..32], &[0, 0, 0, 200]);
    assert_eq!(&bytes[48..52], &[0, 0, 1, 44]);
    let back = read(&bytes).unwrap();
    assert_eq!(back.points, points);
}

#[test]
fn count_beyond_records_is_an_error() {
    let points = vec![sample(100, 1000), sample(200, 2000)];
    let mut bytes = plotter::data::write(&Plot { points }).unwrap();
    // Declare three records while only two follow.
    bytes[7] = 3;
    assert_eq!(read(&bytes).unwrap_err(), StoreError::Truncated);
}

#[test]
fn truncated_record_is_an_error() {
    let points = vec![sample(100, 1000), sample(200, 2000)];
    let mut bytes = plotter::data::write(&Plot { points }).unwrap();
    bytes.truncate(bytes.len() - 1);
    assert_eq!(read(&bytes).unwrap_err(), StoreError::Truncated);
}

#[test]
fn empty_source_is_an_error() {
    assert_eq!(read(&[]).unwrap_err(), StoreError::Truncated);
    assert_eq!(read(&[0x0d]).unwrap_err(), StoreError::Truncated);
    assert_eq!(read(&[0x0d, 0x01, 0x0a, 0x00]).unwrap_err(), StoreError::Truncated);
}

#[test]
fn wrong_magic_is_an_error() {
    // Starts with the magic lead byte, so it is not taken for the legacy
    // variant, but the rest of the header is wrong.
    let bytes = vec![0x0d, 0x02, 0x0a, 0x00, 0, 0, 0, 0];
    assert_eq!(read(&bytes).unwrap_err(), StoreError::BadMagic);
}

#[test]
fn oversized_timestamp_is_an_error() {
    let points = vec![sample(100, 1000)];
    let mut bytes = plotter::data::write(&Plot { points }).unwrap();
    // A non-zero byte in the high half of the 16-byte timestamp puts the
    // value beyond the representable range.
    bytes[12] = 1;
    assert_eq!(read(&bytes).unwrap_err(), StoreError::TimeOverflow);
}

#[test]
fn legacy_compressed_stream_round_trips() {
    let points = vec![sample(4_200, 1_650_000_000_000), sample(4_300, 1_650_000_001_000)];
    let plain = plotter::data::write(&Plot { points: points.clone() }).unwrap();
    let mut encoder = flate2::write::ZlibEncoder::new(Vec::new(), flate2::Compression::fast());
    std::io::Write::write_all(&mut encoder, &plain).unwrap();
    let compressed = encoder.finish().unwrap();
    // A zlib stream never opens with the store's magic lead byte.
    assert_ne!(compressed[0], 0x0d);
    let back = read(&compressed).unwrap();
    assert_eq!(back.points, points);
}

#[test]
fn malformed_legacy_stream_is_an_error() {
    assert_eq!(read(&[0xff, 0x00, 0x01, 0x02]).unwrap_err(), StoreError::Decompress);
}
