use layerizer::area::{resolve_areas, resolve_pixel, AreaLayer, AreaType};
use layerizer::bake::{bake_background, bake_collision, BakeError};
use layerizer::codec::{decode_cell, encode_cell};
use layerizer::model::{Document, Group, Layer, LevelConfig, Role};
use layerizer::occupancy::{occ_pixel, rasterize_occupancy};
use layerizer::px::Px;
use layerizer::raster::Raster;

fn px(r: u8, g: u8, b: u8, a: u8) -> Px {
    Px { r, g, b, a }
}

fn blocked() -> Px {
    px(0, 0, 0, 255)
}

fn clear() -> Px {
    px(0, 0, 0, 0)
}

fn uniform_raster(w: usize, h: usize, p: Px) -> Raster {
    let mut out = Raster::new(w, h);
    for y in 0..h {
        for x in 0..w {
            out.set(x, y, p);
        }
    }
    out
}

/// A w x h raster, transparent but for one opaque pixel.
fn dot_raster(w: usize, h: usize, x: usize, y: usize) -> Raster {
    let mut out = Raster::new(w, h);
    out.set(x, y, px(0, 0, 0, 255));
    out
}

#[test]
fn occupancy_dilates_one_wall_pixel() {
    // A 4x4 document with one opaque wall pixel at (2, 2) and half-extents
    // of 1: the scanned neighborhood of (x, y) is [x-1, x+1) x [y-1, y+1),
    // so exactly (2, 2), (3, 2), (2, 3) and (3, 3) are blocked.
    let walls = vec![dot_raster(4, 4, 2, 2)];
    let out = rasterize_occupancy(&walls, 1, 1, 4, 4);
    for y in 0..4 {
        for x in 0..4 {
            let expect_blocked = (x == 2 || x == 3) && (y == 2 || y == 3);
            assert_eq!(out.get(x, y), if expect_blocked { blocked() } else { clear() });
        }
    }
}

#[test]
fn occupancy_with_half_extents_two_blocks_three_by_three() {
    let walls = vec![dot_raster(4, 4, 2, 2)];
    let out = rasterize_occupancy(&walls, 2, 2, 4, 4);
    for y in 0..4 {
        for x in 0..4 {
            let expect_blocked = (1..=3).contains(&x) && (1..=3).contains(&y);
            assert_eq!(out.get(x, y), if expect_blocked { blocked() } else { clear() });
        }
    }
}

#[test]
fn occupancy_clamps_at_the_low_edge() {
    // A wall pixel in the corner: the neighborhood scan saturates at 0
    // instead of wrapping, so only (0, 0), (1, 0), (0, 1) and (1, 1) see it.
    let walls = vec![dot_raster(4, 4, 0, 0)];
    let out = rasterize_occupancy(&walls, 1, 1, 4, 4);
    for y in 0..4 {
        for x in 0..4 {
            let expect_blocked = x <= 1 && y <= 1;
            assert_eq!(out.get(x, y), if expect_blocked { blocked() } else { clear() });
        }
    }
}

#[test]
fn occupancy_grows_with_half_extents() {
    // Enlarging the half-extents never unblocks a pixel.
    let walls = vec![dot_raster(5, 5, 1, 3)];
    for y in 0..5 {
        for x in 0..5 {
            if occ_pixel(&walls, 1, 1, 5, 5, x, y) {
                assert!(occ_pixel(&walls, 2, 3, 5, 5, x, y));
            }
        }
    }
}

#[test]
fn occupancy_covers_footprint_around_wall() {
    // Every pixel strictly within the half-extents of the opaque wall
    // pixel at (2, 2) is blocked.
    let walls = vec![dot_raster(5, 5, 2, 2)];
    for y in 0..5i64 {
        for x in 0..5i64 {
            if (x - 2).abs() < 2 && (y - 2).abs() < 2 {
                assert!(occ_pixel(&walls, 2, 2, 5, 5, x as usize, y as usize));
            }
        }
    }
}

#[test]
fn topmost_covering_area_layer_wins_with_its_rank() {
    // Bottom-to-top [l0, l1, l2], all covering (0, 0): rank 3 and l2's kind.
    let layers = vec![
        AreaLayer { ty: AreaType::Kitchen, pixels: uniform_raster(1, 1, px(0, 0, 0, 255)) },
        AreaLayer { ty: AreaType::Jail, pixels: uniform_raster(1, 1, px(0, 0, 0, 80)) },
        AreaLayer { ty: AreaType::Crypt, pixels: uniform_raster(1, 1, px(0, 0, 0, 1)) },
    ];
    assert_eq!(resolve_pixel(&layers, 1, 1, 0, 0), Some((3, AreaType::Crypt)));
}

#[test]
fn uncovered_pixel_resolves_to_none() {
    let layers = vec![AreaLayer {
        ty: AreaType::Kitchen,
        pixels: uniform_raster(1, 1, px(9, 9, 9, 0)),
    }];
    assert_eq!(resolve_pixel(&layers, 1, 1, 0, 0), None);
}

#[test]
fn blocked_pixels_never_get_an_area_rank() {
    // One blocked and one clear pixel; an area layer covers both. Only the
    // clear pixel is assigned a rank; the blocked one keeps rank 0.
    let mut raster = Raster::new(2, 1);
    raster.set(0, 0, blocked());
    let layers = vec![AreaLayer {
        ty: AreaType::Bathroom,
        pixels: uniform_raster(2, 1, px(0, 0, 0, 200)),
    }];
    resolve_areas(&mut raster, &layers);
    assert_eq!(raster.get(0, 0), blocked());
    assert_eq!(raster.get(0, 0).r, 0);
    assert_eq!(raster.get(1, 0), px(1, 3, 0, 255));
}

#[test]
fn cell_round_trip_keeps_rank_and_kind() {
    let cell = encode_cell(5, AreaType::Bedroom);
    assert_eq!(decode_cell(cell), Some((5, AreaType::Bedroom)));
}

#[test]
fn unset_or_unknown_cells_decode_to_none() {
    assert_eq!(decode_cell(clear()), None);
    assert_eq!(decode_cell(px(1, 200, 0, 255)), None);
}

#[test]
fn area_names_resolve_exactly() {
    assert_eq!(AreaType::from_str("DiningArea"), Ok(AreaType::DiningArea));
    assert_eq!(AreaType::from_str("Kitchen"), Ok(AreaType::Kitchen));
    assert_eq!(AreaType::from_str("Bedroom"), Ok(AreaType::Bedroom));
    assert_eq!(AreaType::from_str("Bathroom"), Ok(AreaType::Bathroom));
    assert_eq!(AreaType::from_str("Jail"), Ok(AreaType::Jail));
    assert_eq!(AreaType::from_str("Crypt"), Ok(AreaType::Crypt));
    assert_eq!(AreaType::from_str("Garage"), Err(()));
    assert_eq!(AreaType::from_str("kitchen"), Err(()));
}

#[test]
fn tags_round_trip() {
    let kinds = [
        AreaType::DiningArea,
        AreaType::Kitchen,
        AreaType::Bedroom,
        AreaType::Bathroom,
        AreaType::Jail,
        AreaType::Crypt,
    ];
    for (i, k) in kinds.iter().enumerate() {
        assert_eq!(k.tag() as usize, i);
        assert_eq!(AreaType::from_tag(k.tag()), Some(*k));
    }
    assert_eq!(AreaType::from_tag(6), None);
}

fn area_layer(name: &str, visible: bool, pixels: Raster) -> Layer {
    Layer { name: name.to_string(), visible, pixels }
}

#[test]
fn kitchen_under_bedroom_resolves_to_rank_two_bedroom() {
    // Area group with "Kitchen" (bottom) and "Bedroom" (top), both opaque
    // at (0, 0), nothing blocked: the cell decodes to rank 2, Bedroom.
    let doc = Document {
        width: 1,
        height: 1,
        groups: vec![
            Group { layers: Vec::new() },
            Group {
                layers: vec![
                    area_layer("Kitchen", true, uniform_raster(1, 1, px(0, 0, 0, 255))),
                    area_layer("Bedroom", true, uniform_raster(1, 1, px(0, 0, 0, 255))),
                ],
            },
        ],
    };
    let out = bake_collision(&doc, LevelConfig { character_half_width: 1, character_half_height: 1 }).unwrap();
    assert_eq!(decode_cell(out.get(0, 0)), Some((2, AreaType::Bedroom)));
}

#[test]
fn unknown_area_name_aborts_collision_but_not_background() {
    let doc = Document {
        width: 1,
        height: 1,
        groups: vec![
            Group { layers: Vec::new() },
            Group {
                layers: vec![area_layer("Garage", true, uniform_raster(1, 1, px(0, 0, 0, 255)))],
            },
            Group { layers: Vec::new() },
        ],
    };
    match bake_collision(&doc, LevelConfig { character_half_width: 1, character_half_height: 1 }) {
        Err(e) => assert_eq!(e, BakeError::UnknownAreaType(0)),
        Ok(_) => panic!("expected an unknown-area error"),
    }
    assert!(bake_background(&doc).is_ok());
}

#[test]
fn invisible_area_layers_are_ignored() {
    // The area group reads the flag at face value: an invisible layer is
    // not part of the stack, even with an unknown name.
    let doc = Document {
        width: 1,
        height: 1,
        groups: vec![
            Group { layers: Vec::new() },
            Group {
                layers: vec![
                    area_layer("Garage", false, uniform_raster(1, 1, px(0, 0, 0, 255))),
                    area_layer("Jail", true, uniform_raster(1, 1, px(0, 0, 0, 255))),
                ],
            },
        ],
    };
    let out = bake_collision(&doc, LevelConfig { character_half_width: 0, character_half_height: 0 }).unwrap();
    // the kept stack holds only "Jail", so it wins at rank 1
    assert_eq!(decode_cell(out.get(0, 0)), Some((1, AreaType::Jail)));
}

#[test]
fn too_many_area_layers_is_reported_with_count() {
    let mut layers = Vec::new();
    for _ in 0..255 {
        layers.push(area_layer("Crypt", true, Raster::new(1, 1)));
    }
    let doc = Document {
        width: 1,
        height: 1,
        groups: vec![Group { layers: Vec::new() }, Group { layers }],
    };
    match bake_collision(&doc, LevelConfig { character_half_width: 1, character_half_height: 1 }) {
        Err(e) => assert_eq!(e, BakeError::TooManyAreaLayers(255)),
        Ok(_) => panic!("expected a too-many-layers error"),
    }
}

#[test]
fn missing_wall_and_area_groups_are_reported() {
    let empty = Document { width: 1, height: 1, groups: Vec::new() };
    match bake_collision(&empty, LevelConfig { character_half_width: 1, character_half_height: 1 }) {
        Err(e) => assert_eq!(e, BakeError::MissingGroup(Role::Walls)),
        Ok(_) => panic!("expected a missing-group error"),
    }
    let only_walls = Document {
        width: 1,
        height: 1,
        groups: vec![Group { layers: Vec::new() }],
    };
    match bake_collision(&only_walls, LevelConfig { character_half_width: 1, character_half_height: 1 }) {
        Err(e) => assert_eq!(e, BakeError::MissingGroup(Role::Areas)),
        Ok(_) => panic!("expected a missing-group error"),
    }
}

#[test]
fn wall_visibility_flag_is_inverted() {
    // A wall layer with flag true is dropped from the stack; with flag
    // false it blocks.
    let mut doc = Document {
        width: 1,
        height: 1,
        groups: vec![
            Group {
                layers: vec![area_layer("wall", true, uniform_raster(1, 1, px(0, 0, 0, 255)))],
            },
            Group { layers: Vec::new() },
        ],
    };
    let out = bake_collision(&doc, LevelConfig { character_half_width: 1, character_half_height: 1 }).unwrap();
    assert_eq!(out.get(0, 0), clear());
    doc.groups[0].layers[0].visible = false;
    let out = bake_collision(&doc, LevelConfig { character_half_width: 1, character_half_height: 1 }).unwrap();
    assert_eq!(out.get(0, 0), blocked());
}

#[test]
fn rgba_bytes_round_trip() {
    let bytes: Vec<u8> = vec![1, 2, 3, 4, 5, 6, 7, 8, 9, 10, 11, 12, 13, 14, 15, 16];
    let raster = Raster::from_rgba_bytes(2, 2, &bytes).unwrap();
    assert_eq!(raster.get(0, 0), px(1, 2, 3, 4));
    assert_eq!(raster.get(1, 0), px(5, 6, 7, 8));
    assert_eq!(raster.get(0, 1), px(9, 10, 11, 12));
    assert_eq!(raster.get(1, 1), px(13, 14, 15, 16));
    assert_eq!(raster.to_rgba_bytes(), bytes);
}

#[test]
fn rgba_bytes_with_wrong_length_are_rejected() {
    let bytes: Vec<u8> = vec![0; 15];
    assert!(Raster::from_rgba_bytes(2, 2, &bytes).is_none());
}
