use layerizer::bake::{bake_background, BakeError};
use layerizer::compositor::{blend_px, composite, composite_pixel};
use layerizer::model::{Document, Group, Layer, Role};
use layerizer::px::Px;
use layerizer::raster::Raster;

fn px(r: u8, g: u8, b: u8, a: u8) -> Px {
    Px { r, g, b, a }
}

fn uniform_raster(w: usize, h: usize, p: Px) -> Raster {
    let mut out = Raster::new(w, h);
    for y in 0..h {
        for x in 0..w {
            out.set(x, y, p);
        }
    }
    out
}

#[test]
fn blend_under_transparent_accumulator_takes_back_layer() {
    let back = px(200, 10, 60, 255);
    assert_eq!(blend_px(px(0, 0, 0, 0), back), back);
}

#[test]
fn blend_under_opaque_accumulator_is_identity() {
    let front = px(1, 2, 3, 255);
    assert_eq!(blend_px(front, px(200, 10, 60, 90)), front);
}

#[test]
fn blend_exact_rounded_channels() {
    let front = px(10, 20, 30, 200);
    let back = px(100, 100, 100, 100);
    // each channel gains (100 * (255 - 200) + 127) / 255 = 22
    assert_eq!(blend_px(front, back), px(32, 42, 52, 222));
}

#[test]
fn composite_empty_stack_is_transparent() {
    let stack: Vec<Raster> = Vec::new();
    let out = composite(&stack, 2, 2);
    for y in 0..2 {
        for x in 0..2 {
            assert_eq!(out.get(x, y), px(0, 0, 0, 0));
        }
    }
}

#[test]
fn opaque_top_layer_wins_exactly() {
    // Stacks are stored bottom-to-top: the fully opaque top layer must be
    // returned exactly, whatever the bottom holds.
    let bottom = uniform_raster(2, 2, px(9, 8, 7, 130));
    let top = uniform_raster(2, 2, px(50, 60, 70, 255));
    let stack = vec![bottom, top];
    let out = composite(&stack, 2, 2);
    for y in 0..2 {
        for x in 0..2 {
            assert_eq!(out.get(x, y), px(50, 60, 70, 255));
        }
    }
}

#[test]
fn all_transparent_stack_composites_to_zero_alpha() {
    let l0 = uniform_raster(1, 1, px(10, 20, 30, 0));
    let l1 = uniform_raster(1, 1, px(40, 50, 60, 0));
    let stack = vec![l0, l1];
    let out = composite(&stack, 1, 1);
    assert_eq!(out.get(0, 0).a, 0);
}

#[test]
fn opaque_middle_layer_hides_everything_below() {
    // Layers [a, b, c] top-to-bottom with b fully opaque: compositing the
    // whole stack equals compositing only [a, b].
    let a = uniform_raster(2, 1, px(100, 0, 0, 120));
    let b = uniform_raster(2, 1, px(0, 100, 0, 255));
    let c = uniform_raster(2, 1, px(0, 0, 100, 200));
    let full = vec![c, b.clone(), a.clone()];
    let short = vec![b, a];
    let out_full = composite(&full, 2, 1);
    let out_short = composite(&short, 2, 1);
    for x in 0..2 {
        assert_eq!(out_full.get(x, 0), out_short.get(x, 0));
    }
}

#[test]
fn transparent_layer_pixels_are_skipped() {
    // A pixel with alpha 0 on a lower layer contributes nothing, even with
    // loud color channels.
    let noisy = uniform_raster(1, 1, px(255, 255, 255, 0));
    let top = uniform_raster(1, 1, px(10, 10, 10, 100));
    let stack = vec![noisy, top];
    let out = composite(&stack, 1, 1);
    assert_eq!(out.get(0, 0), px(10, 10, 10, 100));
}

#[test]
fn composite_pixel_matches_whole_raster_composite() {
    let bottom = uniform_raster(3, 2, px(1, 2, 3, 90));
    let top = uniform_raster(3, 2, px(200, 100, 50, 40));
    let stack = vec![bottom, top];
    let out = composite(&stack, 3, 2);
    for y in 0..2 {
        for x in 0..3 {
            assert_eq!(composite_pixel(&stack, 3, 2, x, y), out.get(x, y));
        }
    }
}

fn one_layer_doc(visible: bool) -> Document {
    let walls = Group { layers: Vec::new() };
    let areas = Group { layers: Vec::new() };
    let background = Group {
        layers: vec![Layer {
            name: "paper".to_string(),
            visible,
            pixels: uniform_raster(1, 1, px(77, 66, 55, 255)),
        }],
    };
    Document { width: 1, height: 1, groups: vec![walls, areas, background] }
}

#[test]
fn background_visibility_flag_is_inverted() {
    // The container's flag is the complement of true visibility for the
    // background group: flag false means the layer is composited.
    let kept = bake_background(&one_layer_doc(false)).unwrap();
    assert_eq!(kept.get(0, 0), px(77, 66, 55, 255));
    let dropped = bake_background(&one_layer_doc(true)).unwrap();
    assert_eq!(dropped.get(0, 0), px(0, 0, 0, 0));
}

#[test]
fn missing_background_group_is_reported() {
    let doc = Document {
        width: 1,
        height: 1,
        groups: vec![Group { layers: Vec::new() }, Group { layers: Vec::new() }],
    };
    match bake_background(&doc) {
        Err(e) => assert_eq!(e, BakeError::MissingGroup(Role::Background)),
        Ok(_) => panic!("expected a missing-group error"),
    }
}
