use sprite_video_renderer::coords::Coord;
use sprite_video_renderer::mapper::{CoordinateMapper, MapRegion, PixelPos};

#[test]
fn test_coordinate_conversion() {
    // Region 1 sits at tile offset (500, 600); the centre constants are the
    // canvas's 217.5 and 221.5 tiles, pre-multiplied by the tile size.
    let regions = vec![MapRegion { id: 1, offset_x: 500, offset_y: 600 }];
    let mapper = CoordinateMapper::new(regions, 3480, 3544, 0, 0).unwrap();

    // Test coordinate [10, 20, 1]:
    // expected ((10 + 500) * 16 - 3480, (20 + 600) * 16 - 3544) = (4680, 6376).
    let result = mapper.convert_coords(Coord { x: 10, y: 20, region: 1 });
    assert_eq!(result, PixelPos::Valid { x: 4680, y: 6376 });
}

#[test]
fn canvas_translation_moves_the_origin() {
    let regions = vec![MapRegion { id: 1, offset_x: 500, offset_y: 600 }];
    let mapper = CoordinateMapper::new(regions, 3480, 3544, 4096, 4096).unwrap();
    let result = mapper.convert_coords(Coord { x: 10, y: 20, region: 1 });
    assert_eq!(result, PixelPos::Valid { x: 4680 + 4096, y: 6376 + 4096 });
}

#[test]
fn unknown_region_yields_the_invalid_sentinel() {
    let regions = vec![MapRegion { id: 1, offset_x: 0, offset_y: 0 }];
    let mapper = CoordinateMapper::new(regions, 0, 0, 0, 0).unwrap();
    assert_eq!(
        mapper.convert_coords(Coord { x: 3, y: 4, region: 255 }),
        PixelPos::Invalid
    );
}

#[test]
fn conversion_is_pure() {
    // Identical (x, y, region, table) inputs always give identical outputs.
    let regions = vec![
        MapRegion { id: 7, offset_x: 11, offset_y: -13 },
        MapRegion { id: 9, offset_x: 0, offset_y: 2 },
    ];
    let mapper = CoordinateMapper::new(regions, 16, 16, 100, 100).unwrap();
    let c = Coord { x: 42, y: -5, region: 7 };
    let first = mapper.convert_coords(c);
    for _ in 0..10 {
        assert_eq!(mapper.convert_coords(c), first);
    }
    assert_eq!(first, PixelPos::Valid { x: (42 + 11) * 16 - 16 + 100, y: (-5 - 13) * 16 - 16 + 100 });
}

#[test]
fn duplicate_region_ids_resolve_to_the_first_entry() {
    let regions = vec![
        MapRegion { id: 4, offset_x: 1, offset_y: 1 },
        MapRegion { id: 4, offset_x: 9, offset_y: 9 },
    ];
    let mapper = CoordinateMapper::new(regions, 0, 0, 0, 0).unwrap();
    assert_eq!(
        mapper.convert_coords(Coord { x: 0, y: 0, region: 4 }),
        PixelPos::Valid { x: 16, y: 16 }
    );
}

#[test]
fn out_of_bounds_table_is_rejected() {
    let regions = vec![MapRegion { id: 1, offset_x: i64::MAX / 2, offset_y: 0 }];
    assert!(CoordinateMapper::new(regions, 0, 0, 0, 0).is_none());
}
