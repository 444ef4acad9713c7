use sprite_video_renderer::codec::{CodecError, decode_all, encode_run, scan_metadata};
use sprite_video_renderer::coords::{CompactCoordinate, Coord};

#[test]
fn encode_writes_header_then_packed_coordinates() {
    let coords = vec![
        Coord { x: 1, y: 2, region: 3 },
        Coord { x: 4, y: 5, region: 6 },
    ];
    let bytes = encode_run(9, &coords, 2000);
    assert_eq!(bytes, vec![9u8, 2, 0, 1, 2, 3, 4, 5, 6]);
}

#[test]
fn round_trip_reproduces_sprite_and_coordinates() {
    // Components outside 0..=255 become the (0, 0, 255) sentinel; the length
    // is capped at the configured maximum.
    let coords = vec![
        Coord { x: 1, y: 2, region: 3 },
        Coord { x: 300, y: 5, region: 7 },
        Coord { x: 4, y: -1, region: 6 },
        Coord { x: 8, y: 8, region: 8 },
    ];
    let bytes = encode_run(17, &coords, 3);
    let runs = decode_all(&bytes).unwrap();
    assert_eq!(runs.len(), 1);
    assert_eq!(runs[0].sprite_id, 17);
    assert_eq!(
        runs[0].coords,
        vec![
            CompactCoordinate { x: 1, y: 2, region: 3 },
            CompactCoordinate { x: 0, y: 0, region: 255 },
            CompactCoordinate { x: 0, y: 0, region: 255 },
        ]
    );
}

#[test]
fn empty_stream_decodes_to_no_runs() {
    let bytes: Vec<u8> = Vec::new();
    assert_eq!(decode_all(&bytes).unwrap().len(), 0);
    assert_eq!(scan_metadata(&bytes).unwrap().len(), 0);
}

#[test]
fn truncated_header_is_an_error() {
    // One byte past a record boundary: the sprite id read succeeds, the
    // count read fails mid-record.
    let bytes = vec![5u8];
    assert!(matches!(decode_all(&bytes), Err(CodecError::TruncatedRecord)));
    assert_eq!(scan_metadata(&bytes), Err(CodecError::TruncatedRecord));
}

#[test]
fn truncated_payload_is_an_error() {
    // The header declares two coordinates but only one follows.
    let bytes = vec![5u8, 2, 0, 1, 2, 3];
    assert!(matches!(decode_all(&bytes), Err(CodecError::TruncatedRecord)));
}

#[test]
fn metadata_scan_agrees_with_full_decode() {
    let mut bytes = encode_run(1, &vec![Coord { x: 1, y: 1, region: 1 }], 2000);
    bytes.extend(encode_run(
        2,
        &vec![
            Coord { x: 2, y: 2, region: 2 },
            Coord { x: 3, y: 3, region: 3 },
        ],
        2000,
    ));
    let runs = decode_all(&bytes).unwrap();
    let metas = scan_metadata(&bytes).unwrap();
    assert_eq!(runs.len(), metas.len());
    for (run, meta) in runs.iter().zip(metas.iter()) {
        assert_eq!(run.sprite_id, meta.sprite_id);
        assert_eq!(run.coords.len(), meta.coord_count);
        // Slicing the stream at the recorded offset yields exactly this
        // run's coordinate bytes.
        let payload = &bytes[meta.payload_offset..meta.payload_offset + 3 * meta.coord_count];
        let mut expected = Vec::new();
        for c in &run.coords {
            expected.push(c.x);
            expected.push(c.y);
            expected.push(c.region);
        }
        assert_eq!(payload, &expected[..]);
    }
    assert_eq!(metas[0].payload_offset, 3);
    assert_eq!(metas[1].payload_offset, 3 + 3 + 3);
}

#[test]
fn count_field_is_little_endian() {
    let coords: Vec<Coord> = (0..260).map(|i| Coord { x: i % 256, y: 0, region: 1 }).collect();
    let bytes = encode_run(0, &coords, 2000);
    assert_eq!(bytes[1], 4); // 260 = 4 + 1 * 256
    assert_eq!(bytes[2], 1);
    let runs = decode_all(&bytes).unwrap();
    assert_eq!(runs[0].coords.len(), 260);
}
