//! BitmapData host-surface tests: coercion, disposal checks, pixel
//! operations and their sentinels.

use avm_core::avm1::{ColorTransformData, LibrarySymbol, Value, World};
use avm_core::bitmap_data as bd;

fn world() -> World {
    World::new(10)
}

/// A fresh w x h bitmap object, fully transparent-capable, filled with
/// `fill`.
fn new_bitmap(world: &mut World, w: i32, h: i32, fill: i32) -> usize {
    let this = world.empty_bitmap_object();
    let r = bd::constructor(
        world,
        this,
        &[Value::Number(w), Value::Number(h), Value::Bool(true), Value::Number(fill)],
    );
    assert_eq!(r, Value::Object(this));
    this
}

fn rect_obj(world: &mut World, x: i32, y: i32, w: i32, h: i32) -> Value {
    let o = world.new_object(
        vec![
            (b"x".to_vec(), Value::Number(x)),
            (b"y".to_vec(), Value::Number(y)),
            (b"width".to_vec(), Value::Number(w)),
            (b"height".to_vec(), Value::Number(h)),
        ],
        Vec::new(),
    );
    Value::Object(o)
}

fn point_obj(world: &mut World, x: i32, y: i32) -> Value {
    let o = world.new_object(
        vec![(b"x".to_vec(), Value::Number(x)), (b"y".to_vec(), Value::Number(y))],
        Vec::new(),
    );
    Value::Object(o)
}

fn px(world: &World, this: usize, x: i32, y: i32) -> i32 {
    match bd::get_pixel32(world, this, &[Value::Number(x), Value::Number(y)]) {
        Value::Number(n) => n,
        other => panic!("unexpected {:?}", other),
    }
}

#[test]
fn constructor_fills_and_reports_dimensions() {
    let mut w = world();
    let this = new_bitmap(&mut w, 4, 3, 0x11223344);
    assert_eq!(bd::width(&w, this, &[]), Value::Number(4));
    assert_eq!(bd::height(&w, this, &[]), Value::Number(3));
    assert_eq!(bd::get_transparent(&w, this, &[]), Value::Bool(true));
    assert_eq!(px(&w, this, 0, 0), 0x11223344);
    assert_eq!(px(&w, this, 3, 2), 0x11223344);
    // out of bounds reads as zero
    assert_eq!(px(&w, this, 4, 0), 0);
}

#[test]
fn constructor_rejects_invalid_sizes() {
    let mut w = world();
    let this = w.empty_bitmap_object();
    let r = bd::constructor(&mut w, this, &[Value::Number(0), Value::Number(5)]);
    assert_eq!(r, Value::Undefined);
    let r = bd::constructor(&mut w, this, &[Value::Number(9000), Value::Number(9000)]);
    assert_eq!(r, Value::Undefined);
    // through format version 9 the side limit is 2880
    let mut w9 = World::new(9);
    let t9 = w9.empty_bitmap_object();
    let r = bd::constructor(&mut w9, t9, &[Value::Number(3000), Value::Number(10)]);
    assert_eq!(r, Value::Undefined);
    let r = bd::constructor(&mut w9, t9, &[Value::Number(2880), Value::Number(10)]);
    assert_eq!(r, Value::Object(t9));
}

#[test]
fn opaque_bitmap_forces_alpha() {
    let mut w = world();
    let this = w.empty_bitmap_object();
    let r = bd::constructor(
        &mut w,
        this,
        &[Value::Number(2), Value::Number(2), Value::Bool(false), Value::Number(0x00345678)],
    );
    assert_eq!(r, Value::Object(this));
    assert_eq!(px(&w, this, 0, 0), 0xFF345678u32 as i32);
    assert_eq!(bd::get_transparent(&w, this, &[]), Value::Bool(false));
}

#[test]
fn set_and_get_pixel_roundtrip() {
    let mut w = world();
    let this = new_bitmap(&mut w, 4, 4, 0x7F000000u32 as i32);
    let r = bd::set_pixel32(
        &mut w,
        this,
        &[Value::Number(1), Value::Number(2), Value::Number(0x0A0B0C0D)],
    );
    assert_eq!(r, Value::Undefined);
    assert_eq!(px(&w, this, 1, 2), 0x0A0B0C0D);
    // set_pixel keeps the old alpha and replaces the color channels
    let r = bd::set_pixel(
        &mut w,
        this,
        &[Value::Number(0), Value::Number(0), Value::Number(0x00112233)],
    );
    assert_eq!(r, Value::Undefined);
    assert_eq!(px(&w, this, 0, 0), 0x7F112233);
    // get_pixel masks the alpha channel away
    assert_eq!(
        bd::get_pixel(&w, this, &[Value::Number(0), Value::Number(0)]),
        Value::Number(0x00112233)
    );
    // missing coordinates yield the sentinel
    assert_eq!(bd::set_pixel(&mut w, this, &[Value::Number(0)]), Value::Number(-1));
}

#[test]
fn dead_receiver_yields_sentinel() {
    let mut w = world();
    let plain = w.new_object(Vec::new(), Vec::new());
    assert_eq!(bd::width(&w, plain, &[]), Value::Number(-1));
    assert_eq!(bd::height(&w, 999, &[]), Value::Number(-1));
    let this = new_bitmap(&mut w, 2, 2, 0);
    assert_eq!(bd::dispose(&mut w, this, &[]), Value::Undefined);
    assert_eq!(bd::width(&w, this, &[]), Value::Number(-1));
    assert_eq!(bd::dispose(&mut w, this, &[]), Value::Number(-1));
    assert_eq!(bd::get_pixel32(&w, this, &[Value::Number(0), Value::Number(0)]), Value::Number(-1));
}

#[test]
fn fill_rect_clips_to_bitmap() {
    let mut w = world();
    let this = new_bitmap(&mut w, 4, 4, 0);
    let rect = rect_obj(&mut w, 2, 2, 10, 10);
    let r = bd::fill_rect(&mut w, this, &[rect, Value::Number(0x55667788)]);
    assert_eq!(r, Value::Undefined);
    assert_eq!(px(&w, this, 1, 1), 0);
    assert_eq!(px(&w, this, 2, 2), 0x55667788);
    assert_eq!(px(&w, this, 3, 3), 0x55667788);
    // missing color argument: no-op, still undefined
    let rect2 = rect_obj(&mut w, 0, 0, 1, 1);
    assert_eq!(bd::fill_rect(&mut w, this, &[rect2]), Value::Undefined);
    assert_eq!(px(&w, this, 0, 0), 0);
}

#[test]
fn flood_fill_changes_connected_region_only() {
    let mut w = world();
    let this = new_bitmap(&mut w, 3, 1, 0x01);
    // break the row into two regions
    bd::set_pixel32(&mut w, this, &[Value::Number(1), Value::Number(0), Value::Number(0x02)]);
    let r = bd::flood_fill(
        &mut w,
        this,
        &[Value::Number(0), Value::Number(0), Value::Number(0x09)],
    );
    assert_eq!(r, Value::Undefined);
    assert_eq!(px(&w, this, 0, 0), 0x09);
    assert_eq!(px(&w, this, 1, 0), 0x02);
    assert_eq!(px(&w, this, 2, 0), 0x01);
}

#[test]
fn clone_is_independent() {
    let mut w = world();
    let this = new_bitmap(&mut w, 2, 2, 0x11);
    let copy = match bd::clone(&mut w, this, &[]) {
        Value::Object(o) => o,
        other => panic!("unexpected {:?}", other),
    };
    bd::set_pixel32(&mut w, this, &[Value::Number(0), Value::Number(0), Value::Number(0x99)]);
    assert_eq!(px(&w, this, 0, 0), 0x99);
    assert_eq!(px(&w, copy, 0, 0), 0x11);
}

#[test]
fn get_rectangle_reports_bounds() {
    let mut w = world();
    let this = new_bitmap(&mut w, 5, 7, 0);
    let rect = match bd::get_rectangle(&mut w, this, &[]) {
        Value::Object(o) => o,
        other => panic!("unexpected {:?}", other),
    };
    assert_eq!(w.get_prop_i32(rect, &b"x".to_vec()), 0);
    assert_eq!(w.get_prop_i32(rect, &b"y".to_vec()), 0);
    assert_eq!(w.get_prop_i32(rect, &b"width".to_vec()), 5);
    assert_eq!(w.get_prop_i32(rect, &b"height".to_vec()), 7);
}

#[test]
fn stubs_return_their_sentinels() {
    let mut w = world();
    let this = new_bitmap(&mut w, 2, 2, 0);
    assert_eq!(bd::apply_filter(&w, this, &[]), Value::Number(-1));
    assert_eq!(bd::generate_filter_rect(&w, this, &[]), Value::Undefined);
    assert_eq!(bd::pixel_dissolve(&w, this, &[]), Value::Undefined);
    assert_eq!(bd::generate_filter_rect(&w, 999, &[]), Value::Number(-1));
    assert_eq!(bd::pixel_dissolve(&w, 999, &[]), Value::Number(-1));
}

#[test]
fn scroll_shifts_contents() {
    let mut w = world();
    let this = new_bitmap(&mut w, 3, 1, 0);
    bd::set_pixel32(&mut w, this, &[Value::Number(0), Value::Number(0), Value::Number(0x0A)]);
    bd::set_pixel32(&mut w, this, &[Value::Number(1), Value::Number(0), Value::Number(0x0B)]);
    bd::set_pixel32(&mut w, this, &[Value::Number(2), Value::Number(0), Value::Number(0x0C)]);
    let r = bd::scroll(&mut w, this, &[Value::Number(1), Value::Number(0)]);
    assert_eq!(r, Value::Undefined);
    // shifted right by one; the uncovered first column keeps its pixel
    assert_eq!(px(&w, this, 0, 0), 0x0A);
    assert_eq!(px(&w, this, 1, 0), 0x0A);
    assert_eq!(px(&w, this, 2, 0), 0x0B);
}

#[test]
fn copy_channel_moves_one_channel() {
    let mut w = world();
    let dst = new_bitmap(&mut w, 1, 1, 0x00000000);
    let src = new_bitmap(&mut w, 1, 1, 0x00CC0000);
    let rect = rect_obj(&mut w, 0, 0, 1, 1);
    let pt = point_obj(&mut w, 0, 0);
    let src_val = Value::Object(src);
    // channel code 1 is red on both sides
    let r = bd::copy_channel(
        &mut w,
        dst,
        &[src_val, rect, pt, Value::Number(1), Value::Number(1)],
    );
    assert_eq!(r, Value::Undefined);
    assert_eq!(px(&w, dst, 0, 0), 0x00CC0000);
}

#[test]
fn merge_mixes_channels() {
    let mut w = world();
    let dst = new_bitmap(&mut w, 1, 1, 0x00000000u32 as i32);
    let src = new_bitmap(&mut w, 1, 1, 0x00FF0000u32 as i32);
    let rect = rect_obj(&mut w, 0, 0, 1, 1);
    let pt = point_obj(&mut w, 0, 0);
    // full weight on red, none elsewhere: (0xFF * 256 + 0 * 0) / 256
    let r = bd::merge(
        &mut w,
        dst,
        &[
            Value::Object(src),
            rect,
            pt,
            Value::Number(256),
            Value::Number(0),
            Value::Number(0),
            Value::Number(0),
        ],
    );
    assert_eq!(r, Value::Undefined);
    assert_eq!(px(&w, dst, 0, 0), 0x00FF0000);
    // half weight mixes: (0x80 * 128 + 0x00 * 128) / 256 == 0x40
    let dst2 = new_bitmap(&mut w, 1, 1, 0);
    let src2 = new_bitmap(&mut w, 1, 1, 0x00800000u32 as i32);
    let rect2 = rect_obj(&mut w, 0, 0, 1, 1);
    let pt2 = point_obj(&mut w, 0, 0);
    bd::merge(
        &mut w,
        dst2,
        &[
            Value::Object(src2),
            rect2,
            pt2,
            Value::Number(128),
            Value::Number(0),
            Value::Number(0),
            Value::Number(0),
        ],
    );
    assert_eq!(px(&w, dst2, 0, 0), 0x00400000);
}

#[test]
fn palette_map_uses_tables_and_identity() {
    let mut w = world();
    let dst = new_bitmap(&mut w, 1, 1, 0);
    let src = new_bitmap(&mut w, 1, 1, 0x00000005);
    // a blue table sending 5 to 0x77; other channels keep identity
    let mut blues = Vec::new();
    for i in 0..256 {
        blues.push(if i == 5 { Value::Number(0x77) } else { Value::Number(0) });
    }
    let blue_table = w.new_object(Vec::new(), blues);
    let rect = rect_obj(&mut w, 0, 0, 1, 1);
    let pt = point_obj(&mut w, 0, 0);
    let r = bd::palette_map(
        &mut w,
        dst,
        &[
            Value::Object(src),
            rect,
            pt,
            Value::Undefined,
            Value::Undefined,
            Value::Object(blue_table),
            Value::Undefined,
        ],
    );
    assert_eq!(r, Value::Undefined);
    // alpha/red/green identity contribute 0, blue table maps 5 -> 0x77
    assert_eq!(px(&w, dst, 0, 0), 0x77);
}

#[test]
fn threshold_counts_and_recolors() {
    let mut w = world();
    let dst = new_bitmap(&mut w, 2, 1, 0x01);
    let src = new_bitmap(&mut w, 2, 1, 0x10);
    bd::set_pixel32(&mut w, src, &[Value::Number(1), Value::Number(0), Value::Number(0x30)]);
    let rect = rect_obj(&mut w, 0, 0, 2, 1);
    let pt = point_obj(&mut w, 0, 0);
    let r = bd::threshold(
        &mut w,
        dst,
        &[
            Value::Object(src),
            rect,
            pt,
            Value::String(b">".to_vec()),
            Value::Number(0x20),
            Value::Number(0x7F),
            Value::Number(-1),
            Value::Bool(true),
        ],
    );
    // one source pixel exceeds the threshold and is recolored; the other
    // is copied because copy_source is set
    assert_eq!(r, Value::Number(1));
    assert_eq!(px(&w, dst, 0, 0), 0x10);
    assert_eq!(px(&w, dst, 1, 0), 0x7F);
    // an unrecognized operation string yields zero and changes nothing
    let rect2 = rect_obj(&mut w, 0, 0, 2, 1);
    let pt2 = point_obj(&mut w, 0, 0);
    let r = bd::threshold(
        &mut w,
        dst,
        &[Value::Object(src), rect2, pt2, Value::String(b"<>".to_vec()), Value::Number(0)],
    );
    assert_eq!(r, Value::Number(0));
}

#[test]
fn copy_pixels_copies_a_region() {
    let mut w = world();
    let dst = new_bitmap(&mut w, 2, 2, 0x01);
    let src = new_bitmap(&mut w, 2, 2, 0x02);
    bd::set_pixel32(&mut w, src, &[Value::Number(0), Value::Number(0), Value::Number(0x0A)]);
    let rect = rect_obj(&mut w, 0, 0, 1, 1);
    let pt = point_obj(&mut w, 1, 1);
    let r = bd::copy_pixels(&mut w, dst, &[Value::Object(src), rect, pt]);
    assert_eq!(r, Value::Undefined);
    assert_eq!(px(&w, dst, 1, 1), 0x0A);
    assert_eq!(px(&w, dst, 0, 0), 0x01);
    assert_eq!(px(&w, dst, 0, 1), 0x01);
}

#[test]
fn color_transform_scales_and_offsets() {
    let mut w = world();
    let this = new_bitmap(&mut w, 1, 1, 0x00100000u32 as i32);
    let rect = rect_obj(&mut w, 0, 0, 1, 1);
    let ct = w.new_color_transform_object(ColorTransformData {
        red_mult: 512,  // clamped to 256: identity times one
        green_mult: 256,
        blue_mult: 256,
        alpha_mult: 256,
        red_off: 0x0F,
        green_off: 0,
        blue_off: 0,
        alpha_off: 0,
    });
    let r = bd::color_transform(&mut w, this, &[rect, Value::Object(ct)]);
    // the historical surface reports -1 whether or not it transformed
    assert_eq!(r, Value::Number(-1));
    assert_eq!(px(&w, this, 0, 0), 0x001F0000);
    // a non-transform second argument yields -3
    let rect2 = rect_obj(&mut w, 0, 0, 1, 1);
    let plain = w.new_object(Vec::new(), Vec::new());
    let r = bd::color_transform(&mut w, this, &[rect2, Value::Object(plain)]);
    assert_eq!(r, Value::Number(-3));
}

#[test]
fn color_bounds_rect_finds_tight_bounds() {
    let mut w = world();
    let this = new_bitmap(&mut w, 4, 4, 0);
    bd::set_pixel32(&mut w, this, &[Value::Number(1), Value::Number(2), Value::Number(0xFF)]);
    bd::set_pixel32(&mut w, this, &[Value::Number(2), Value::Number(1), Value::Number(0xFF)]);
    let r = bd::get_color_bounds_rect(
        &mut w,
        this,
        &[Value::Number(-1), Value::Number(0xFF), Value::Bool(true)],
    );
    let rect = match r {
        Value::Object(o) => o,
        other => panic!("unexpected {:?}", other),
    };
    assert_eq!(w.get_prop_i32(rect, &b"x".to_vec()), 1);
    assert_eq!(w.get_prop_i32(rect, &b"y".to_vec()), 1);
    assert_eq!(w.get_prop_i32(rect, &b"width".to_vec()), 2);
    assert_eq!(w.get_prop_i32(rect, &b"height".to_vec()), 2);
}

#[test]
fn hit_test_point_rect_and_bitmap() {
    let mut w = world();
    let this = new_bitmap(&mut w, 2, 2, 0);
    // one fully opaque pixel at (1, 1)
    bd::set_pixel32(
        &mut w,
        this,
        &[Value::Number(1), Value::Number(1), Value::Number(0xFF000000u32 as i32)],
    );
    let tl = point_obj(&mut w, 0, 0);
    let hit_point = point_obj(&mut w, 1, 1);
    let miss_point = point_obj(&mut w, 0, 0);
    let r = bd::hit_test(&w, this, &[tl, Value::Number(128), hit_point]);
    assert_eq!(r, Value::Bool(true));
    let tl = point_obj(&mut w, 0, 0);
    let r = bd::hit_test(&w, this, &[tl, Value::Number(128), miss_point]);
    assert_eq!(r, Value::Bool(false));
    // rectangle overload
    let tl = point_obj(&mut w, 0, 0);
    let rect = rect_obj(&mut w, 0, 0, 2, 2);
    let r = bd::hit_test(&w, this, &[tl, Value::Number(128), rect]);
    assert_eq!(r, Value::Bool(true));
    // bitmap overload: overlap at the opaque pixel
    let other = new_bitmap(&mut w, 2, 2, 0);
    bd::set_pixel32(
        &mut w,
        other,
        &[Value::Number(0), Value::Number(0), Value::Number(0xFF000000u32 as i32)],
    );
    let tl = point_obj(&mut w, 0, 0);
    let second = point_obj(&mut w, 1, 1);
    let r = bd::hit_test(
        &w,
        this,
        &[tl, Value::Number(128), Value::Object(other), second, Value::Number(128)],
    );
    assert_eq!(r, Value::Bool(true));
    // an invalid first point yields -2
    let r = bd::hit_test(&w, this, &[Value::Undefined, Value::Number(128)]);
    assert_eq!(r, Value::Number(-2));
}

#[test]
fn compare_reports_differences_and_sentinels() {
    let mut w = world();
    let a = new_bitmap(&mut w, 2, 1, 0xFF101010u32 as i32);
    let b = new_bitmap(&mut w, 2, 1, 0xFF101010u32 as i32);
    assert_eq!(bd::compare(&mut w, a, &[Value::Object(b)]), Value::Number(0));
    // change one pixel's red channel
    bd::set_pixel32(
        &mut w,
        b,
        &[Value::Number(1), Value::Number(0), Value::Number(0xFF301010u32 as i32)],
    );
    let diff = match bd::compare(&mut w, a, &[Value::Object(b)]) {
        Value::Object(o) => o,
        other => panic!("unexpected {:?}", other),
    };
    assert_eq!(px(&w, diff, 0, 0), 0);
    assert_eq!(px(&w, diff, 1, 0), 0xFF200000u32 as i32);
    // dimension mismatches
    let c = new_bitmap(&mut w, 3, 1, 0);
    assert_eq!(bd::compare(&mut w, a, &[Value::Object(c)]), Value::Number(-3));
    let d = new_bitmap(&mut w, 2, 2, 0);
    assert_eq!(bd::compare(&mut w, a, &[Value::Object(d)]), Value::Number(-4));
    // a non-bitmap compare object
    assert_eq!(bd::compare(&mut w, a, &[Value::Number(3)]), Value::Number(-2));
    // a non-bitmap receiver
    assert_eq!(bd::compare(&mut w, 999, &[Value::Object(b)]), Value::Number(-1));
}

#[test]
fn load_bitmap_copies_a_library_symbol() {
    let mut w = world();
    w.add_library_symbol(LibrarySymbol {
        name: b"logo".to_vec(),
        width: 2,
        height: 1,
        rows: vec![vec![0xAA, 0xBB]],
    });
    let this = w.new_object(Vec::new(), Vec::new());
    let r = bd::load_bitmap(&mut w, this, &[Value::String(b"logo".to_vec())]);
    let o = match r {
        Value::Object(o) => o,
        other => panic!("unexpected {:?}", other),
    };
    assert_eq!(px(&w, o, 0, 0), 0xAA);
    assert_eq!(px(&w, o, 1, 0), 0xBB);
    assert_eq!(bd::width(&w, o, &[]), Value::Number(2));
    // an unknown name yields undefined
    let r = bd::load_bitmap(&mut w, this, &[Value::String(b"missing".to_vec())]);
    assert_eq!(r, Value::Undefined);
    let r = bd::load_bitmap(&mut w, this, &[Value::Number(3)]);
    assert_eq!(r, Value::Undefined);
}

#[test]
fn noise_is_deterministic_in_the_seed() {
    let mut w = world();
    let a = new_bitmap(&mut w, 4, 4, 0);
    let b = new_bitmap(&mut w, 4, 4, 0);
    let r = bd::noise(&mut w, a, &[Value::Number(42)]);
    assert_eq!(r, Value::Undefined);
    bd::noise(&mut w, b, &[Value::Number(42)]);
    assert_eq!(bd::compare(&mut w, a, &[Value::Object(b)]), Value::Number(0));
    // without channel options the alpha channel stays opaque
    let p = px(&w, a, 0, 0) as u32;
    assert_eq!(p >> 24, 0xFF);
    // a different seed disagrees somewhere on a 4x4 grid
    let c = new_bitmap(&mut w, 4, 4, 0);
    bd::noise(&mut w, c, &[Value::Number(43)]);
    assert_ne!(bd::compare(&mut w, a, &[Value::Object(c)]), Value::Number(0));
    // a bounded range keeps every channel inside it
    let d = new_bitmap(&mut w, 4, 4, 0);
    bd::noise(
        &mut w,
        d,
        &[Value::Number(7), Value::Number(0x40), Value::Number(0x4F), Value::Number(7)],
    );
    for y in 0..4 {
        for x in 0..4 {
            let p = px(&w, d, x, y) as u32;
            let red = (p >> 16) & 0xFF;
            assert!((0x40..=0x4F).contains(&red));
        }
    }
    // a missing seed leaves the bitmap untouched
    let e = new_bitmap(&mut w, 2, 2, 0x33);
    assert_eq!(bd::noise(&mut w, e, &[]), Value::Undefined);
    assert_eq!(px(&w, e, 0, 0), 0x33);
}
