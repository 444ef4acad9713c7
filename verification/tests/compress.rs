use sprite_video_renderer::codec::encode_run;
use sprite_video_renderer::compress::{ReadError, compress_output, decompress_input, read_metadata, read_runs};
use sprite_video_renderer::coords::Coord;

fn record() -> Vec<u8> {
    encode_run(
        5,
        &vec![Coord { x: 1, y: 2, region: 3 }, Coord { x: 4, y: 5, region: 6 }],
        2000,
    )
}

#[test]
fn compressed_round_trip_reproduces_the_runs() {
    let raw = record();
    let compressed = compress_output(&raw, 3).unwrap();
    assert_ne!(compressed, raw);
    let runs = read_runs(&compressed, true).unwrap();
    assert_eq!(runs.len(), 1);
    assert_eq!(runs[0].sprite_id, 5);
    assert_eq!(runs[0].coords.len(), 2);
}

#[test]
fn raw_input_is_read_as_is() {
    let raw = record();
    assert_eq!(decompress_input(&raw, false).unwrap(), raw);
    let runs = read_runs(&raw, false).unwrap();
    assert_eq!(runs.len(), 1);
}

#[test]
fn garbage_compressed_input_is_a_decompress_error() {
    let garbage = vec![1u8, 2, 3, 4];
    assert!(matches!(read_runs(&garbage, true), Err(ReadError::Decompress)));
}

#[test]
fn truncation_survives_the_transparent_path() {
    let mut raw = record();
    raw.pop();
    let compressed = compress_output(&raw, 3).unwrap();
    assert!(matches!(read_runs(&compressed, true), Err(ReadError::Truncated)));
}

#[test]
fn metadata_scan_is_transparent_to_compression() {
    let mut raw = record();
    raw.extend(record());
    let compressed = compress_output(&raw, 3).unwrap();
    let metas_raw = read_metadata(&raw, false).unwrap();
    let metas_z = read_metadata(&compressed, true).unwrap();
    assert_eq!(metas_raw, metas_z);
    assert_eq!(metas_raw.len(), 2);
    assert_eq!(metas_raw[1].payload_offset, raw.len() / 2 + 3);
}
