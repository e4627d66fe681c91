//! The BitmapData host-object surface: the functions scripts reach, each
//! coercing its raw argument list, checking the receiver for liveness,
//! and dispatching to the pixel operations.
//!
//! Every function takes the host world, the receiver object handle, and
//! the raw argument slice, mirroring the host calling convention.  A
//! receiver that is not a live (undisposed) BitmapData object yields the
//! sentinel `-1`.

use vstd::prelude::*;
use crate::avm1::{
    find_symbol, lemma_find_symbol, spec_prop_i32, spec_to_i32, spec_to_object, spec_truthy,
    spec_element_u32, Value, World,
};
use crate::bitmap::{
    clone_bitmap, copy_grid, dispose_bitmap, effective_color, fill_rect_rel, in_bounds,
    init_pixels, is_size_valid, op_fill_rect, op_flood_fill, op_get_pixel, op_get_pixel32,
    op_set_pixel, op_set_pixel32, pix, flood_fill_rel, set_pixel_rel, set_pixel32_rel,
    spec_size_valid, BitmapData,
};

verus! {

/// The argument at `i`, with out-of-range reads as `undefined`.
pub open spec fn arg_i32_or(args: Seq<Value>, i: int, d: i32) -> i32 {
    if 0 <= i < args.len() {
        spec_to_i32(args[i])
    } else {
        d
    }
}

/// The argument at `i` coerced to an unsigned integer.
pub open spec fn arg_u32_or(args: Seq<Value>, i: int, d: u32) -> u32 {
    if 0 <= i < args.len() {
        (spec_to_i32(args[i]) as u32)
    } else {
        d
    }
}

/// The argument at `i` coerced to a boolean.
pub open spec fn arg_truthy_or(args: Seq<Value>, i: int, d: bool) -> bool {
    if 0 <= i < args.len() {
        spec_truthy(args[i])
    } else {
        d
    }
}

/// The object handle the argument at `i` coerces to.
pub open spec fn arg_object(args: Seq<Value>, i: int) -> Option<usize> {
    if 0 <= i < args.len() {
        spec_to_object(args[i])
    } else {
        None
    }
}

/// The coerced integer property of an optionally present object.
pub open spec fn obj_prop_i32(w: World, oo: Option<usize>, name: Seq<u8>) -> i32 {
    match oo {
        Some(o) => spec_prop_i32(w, o as int, name),
        None => 0,
    }
}

/// The bitmap record behind the receiver, provided it is a BitmapData
/// object whose bitmap is in range and not disposed.
pub open spec fn live_bitmap(w: World, this: int) -> Option<usize> {
    match crate::avm1::spec_bitmap_of(w, this) {
        Some(b) => if b < w.bitmaps@.len() && !w.bitmaps@[b as int].disposed {
            Some(b)
        } else {
            None
        },
        None => None,
    }
}

/// Everything except the bitmap arena is unchanged.
pub open spec fn same_but_bitmaps(pre: World, post: World) -> bool {
    &&& post.objects@ == pre.objects@
    &&& post.library@ == pre.library@
    &&& post.swf_version == pre.swf_version
}

/// Exactly one bitmap record changed.
pub open spec fn one_bitmap_changed(pre: World, post: World, b: int) -> bool {
    &&& same_but_bitmaps(pre, post)
    &&& post.bitmaps@.len() == pre.bitmaps@.len()
    &&& (forall|j: int| 0 <= j < pre.bitmaps@.len() && j != b
        ==> post.bitmaps@[j] == pre.bitmaps@[j])
}

fn arg_i32(args: &[Value], i: usize, d: i32) -> (r: i32)
    ensures
        r == arg_i32_or(args@, i as int, d),
{
    if i < args.len() {
        args[i].coerce_to_i32()
    } else {
        d
    }
}

fn arg_u32(args: &[Value], i: usize, d: u32) -> (r: u32)
    ensures
        r == arg_u32_or(args@, i as int, d),
{
    if i < args.len() {
        args[i].coerce_to_u32()
    } else {
        d
    }
}

fn arg_truthy(args: &[Value], i: usize, d: bool) -> (r: bool)
    ensures
        r == arg_truthy_or(args@, i as int, d),
{
    if i < args.len() {
        args[i].as_bool()
    } else {
        d
    }
}

fn arg_obj(args: &[Value], i: usize) -> (r: Option<usize>)
    ensures
        r == arg_object(args@, i as int),
{
    if i < args.len() {
        args[i].as_object()
    } else {
        None
    }
}

/// The name `x` as bytes.
pub open spec fn name_x() -> Seq<u8> {
    seq![120u8]
}

/// The name `y` as bytes.
pub open spec fn name_y() -> Seq<u8> {
    seq![121u8]
}

/// The name `width` as bytes.
pub open spec fn name_width() -> Seq<u8> {
    seq![119u8, 105u8, 100u8, 116u8, 104u8]
}

/// The name `height` as bytes.
pub open spec fn name_height() -> Seq<u8> {
    seq![104u8, 101u8, 105u8, 103u8, 104u8, 116u8]
}

fn name_x_vec() -> (r: Vec<u8>)
    ensures
        r@ == name_x(),
{
    let mut r: Vec<u8> = Vec::new();
    r.push(120u8);
    proof {
        assert(r@ =~= name_x());
    }
    r
}

fn name_y_vec() -> (r: Vec<u8>)
    ensures
        r@ == name_y(),
{
    let mut r: Vec<u8> = Vec::new();
    r.push(121u8);
    proof {
        assert(r@ =~= name_y());
    }
    r
}

fn name_width_vec() -> (r: Vec<u8>)
    ensures
        r@ == name_width(),
{
    let mut r: Vec<u8> = Vec::new();
    r.push(119u8);
    r.push(105u8);
    r.push(100u8);
    r.push(116u8);
    r.push(104u8);
    proof {
        assert(r@ =~= name_width());
    }
    r
}

fn name_height_vec() -> (r: Vec<u8>)
    ensures
        r@ == name_height(),
{
    let mut r: Vec<u8> = Vec::new();
    r.push(104u8);
    r.push(101u8);
    r.push(105u8);
    r.push(103u8);
    r.push(104u8);
    r.push(116u8);
    proof {
        assert(r@ =~= name_height());
    }
    r
}

/// The receiver's live bitmap record, if any.
fn live_bitmap_of(world: &World, this: usize) -> (r: Option<usize>)
    requires
        world.wf(),
    ensures
        r == live_bitmap(*world, this as int),
        r matches Some(b) ==> b < world.bitmaps@.len() && world.bitmaps@[b as int].wf()
            && !world.bitmaps@[b as int].disposed,
{
    match world.bitmap_of(this) {
        Some(b) => {
            if b < world.bitmaps.len() && !world.bitmaps[b].disposed {
                proof {
                    assert(world.bitmaps@[b as int].wf());
                }
                Some(b)
            } else {
                None
            }
        },
        None => None,
    }
}

/// A property bag shaped like a rectangle value.
fn rect_props(x: i32, y: i32, w: i32, h: i32) -> (r: Vec<(Vec<u8>, Value)>)
    ensures
        r@.len() == 4,
        r@[0].0@ == name_x() && r@[0].1 == Value::Number(x),
        r@[1].0@ == name_y() && r@[1].1 == Value::Number(y),
        r@[2].0@ == name_width() && r@[2].1 == Value::Number(w),
        r@[3].0@ == name_height() && r@[3].1 == Value::Number(h),
{
    let mut r: Vec<(Vec<u8>, Value)> = Vec::new();
    r.push((name_x_vec(), Value::Number(x)));
    r.push((name_y_vec(), Value::Number(y)));
    r.push((name_width_vec(), Value::Number(w)));
    r.push((name_height_vec(), Value::Number(h)));
    r
}

/// Construct the receiver's pixels: coerces width, height, transparency
/// and fill color, rejects sizes the format refuses (returning
/// `undefined`), and otherwise (re)initializes the receiver's bitmap and
/// returns the receiver.
pub fn constructor(world: &mut World, this: usize, args: &[Value]) -> (r: Value)
    requires
        old(world).wf(),
    ensures
        final(world).wf(),
        ({
            let w = arg_i32_or(args@, 0, 0i32) as u32;
            let h = arg_i32_or(args@, 1, 0i32) as u32;
            let transparency = arg_truthy_or(args@, 2, true);
            let fill = arg_i32_or(args@, 3, -1i32);
            if !spec_size_valid(old(world).swf_version, w, h) {
                r == Value::Undefined && *final(world) == *old(world)
            } else {
                r == Value::Object(this) && (match crate::avm1::spec_bitmap_of(
                    *old(world),
                    this as int,
                ) {
                    Some(b) => {
                        &&& one_bitmap_changed(*old(world), *final(world), b as int)
                        &&& final(world).bitmaps@[b as int].width == w
                        &&& final(world).bitmaps@[b as int].height == h
                        &&& final(world).bitmaps@[b as int].transparency == transparency
                        &&& final(world).bitmaps@[b as int].disposed == old(world).bitmaps@[b as int].disposed
                        &&& (forall|j: int, i: int| 0 <= j < h && 0 <= i < w ==> pix(
                            final(world).bitmaps@[b as int],
                            i,
                            j,
                        ) == effective_color(transparency, fill))
                    },
                    None => *final(world) == *old(world),
                })
            }
        }),
{
    let w = arg_i32(args, 0, 0) as u32;
    let h = arg_i32(args, 1, 0) as u32;
    let transparency = arg_truthy(args, 2, true);
    let fill = arg_i32(args, 3, -1);
    if !is_size_valid(world.swf_version, w, h) {
        return Value::Undefined;
    }
    match world.bitmap_of(this) {
        Some(b) => {
            proof {
                assert(world.obj_ok(this as int));
            }
            let bm = &mut world.bitmaps[b];
            init_pixels(bm, w, h, transparency, fill);
            proof {
                lemma_world_one_bitmap(*old(world), *world, b as int);
            }
        },
        None => {},
    }
    Value::Object(this)
}

/// The receiver's height in pixels, `-1` for a dead receiver.
pub fn height(world: &World, this: usize, args: &[Value]) -> (r: Value)
    requires
        world.wf(),
    ensures
        r == (match live_bitmap(*world, this as int) {
            Some(b) => Value::Number(world.bitmaps@[b as int].height as i32),
            None => Value::Number(-1i32),
        }),
{
    match live_bitmap_of(world, this) {
        Some(b) => Value::Number(world.bitmaps[b].height as i32),
        None => Value::Number(-1i32),
    }
}

/// The receiver's width in pixels, `-1` for a dead receiver.
pub fn width(world: &World, this: usize, args: &[Value]) -> (r: Value)
    requires
        world.wf(),
    ensures
        r == (match live_bitmap(*world, this as int) {
            Some(b) => Value::Number(world.bitmaps@[b as int].width as i32),
            None => Value::Number(-1i32),
        }),
{
    match live_bitmap_of(world, this) {
        Some(b) => Value::Number(world.bitmaps[b].width as i32),
        None => Value::Number(-1i32),
    }
}

/// Whether the receiver's pixels carry transparency, `-1` for a dead
/// receiver.
pub fn get_transparent(world: &World, this: usize, args: &[Value]) -> (r: Value)
    requires
        world.wf(),
    ensures
        r == (match live_bitmap(*world, this as int) {
            Some(b) => Value::Bool(world.bitmaps@[b as int].transparency),
            None => Value::Number(-1i32),
        }),
{
    match live_bitmap_of(world, this) {
        Some(b) => Value::Bool(world.bitmaps[b].transparency),
        None => Value::Number(-1i32),
    }
}

/// A fresh rectangle object describing the receiver's bounds, `-1` for a
/// dead receiver.
pub fn get_rectangle(world: &mut World, this: usize, args: &[Value]) -> (r: Value)
    requires
        old(world).wf(),
    ensures
        final(world).wf(),
        match live_bitmap(*old(world), this as int) {
            Some(b) => {
                &&& r == Value::Object(old(world).objects@.len() as usize)
                &&& final(world).objects@.len() == old(world).objects@.len() + 1
                &&& (forall|j: int| 0 <= j < old(world).objects@.len()
                    ==> final(world).objects@[j] == old(world).objects@[j])
                &&& final(world).objects@[old(world).objects@.len() as int].bitmap is None
                &&& ({
                    let props = final(world).objects@[old(world).objects@.len() as int].props@;
                    &&& props.len() == 4
                    &&& props[0].0@ == name_x() && props[0].1 == Value::Number(0i32)
                    &&& props[1].0@ == name_y() && props[1].1 == Value::Number(0i32)
                    &&& props[2].0@ == name_width() && props[2].1 == Value::Number(
                        old(world).bitmaps@[b as int].width as i32,
                    )
                    &&& props[3].0@ == name_height() && props[3].1 == Value::Number(
                        old(world).bitmaps@[b as int].height as i32,
                    )
                })
                &&& final(world).bitmaps@ == old(world).bitmaps@
                &&& final(world).library@ == old(world).library@
                &&& final(world).swf_version == old(world).swf_version
            },
            None => *final(world) == *old(world) && r == Value::Number(-1i32),
        },
{
    match live_bitmap_of(world, this) {
        Some(b) => {
            let w = world.bitmaps[b].width as i32;
            let h = world.bitmaps[b].height as i32;
            let props = rect_props(0, 0, w, h);
            let o = world.new_object(props, Vec::new());
            Value::Object(o)
        },
        None => Value::Number(-1i32),
    }
}

/// The RGB of one pixel, or `-1` for a dead receiver or missing
/// coordinates.
pub fn get_pixel(world: &World, this: usize, args: &[Value]) -> (r: Value)
    requires
        world.wf(),
    ensures
        r == (match live_bitmap(*world, this as int) {
            Some(b) => if args@.len() >= 2 {
                ({
                    let bm = world.bitmaps@[b as int];
                    let x = arg_u32_or(args@, 0, 0u32);
                    let y = arg_u32_or(args@, 1, 0u32);
                    if in_bounds(bm, x as int, y as int) {
                        Value::Number((pix(bm, x as int, y as int) & 0x00FF_FFFF) as i32)
                    } else {
                        Value::Number(0i32)
                    }
                })
            } else {
                Value::Number(-1i32)
            },
            None => Value::Number(-1i32),
        }),
{
    match live_bitmap_of(world, this) {
        Some(b) => {
            if args.len() >= 2 {
                let x = arg_u32(args, 0, 0);
                let y = arg_u32(args, 1, 0);
                Value::Number(op_get_pixel(&world.bitmaps[b], x, y))
            } else {
                Value::Number(-1i32)
            }
        },
        None => Value::Number(-1i32),
    }
}

/// The full ARGB of one pixel, or `-1` for a dead receiver or missing
/// coordinates.
pub fn get_pixel32(world: &World, this: usize, args: &[Value]) -> (r: Value)
    requires
        world.wf(),
    ensures
        r == (match live_bitmap(*world, this as int) {
            Some(b) => if args@.len() >= 2 {
                ({
                    let bm = world.bitmaps@[b as int];
                    let x = arg_u32_or(args@, 0, 0u32);
                    let y = arg_u32_or(args@, 1, 0u32);
                    if in_bounds(bm, x as int, y as int) {
                        Value::Number(pix(bm, x as int, y as int) as i32)
                    } else {
                        Value::Number(0i32)
                    }
                })
            } else {
                Value::Number(-1i32)
            },
            None => Value::Number(-1i32),
        }),
{
    match live_bitmap_of(world, this) {
        Some(b) => {
            if args.len() >= 2 {
                let x = arg_u32(args, 0, 0);
                let y = arg_u32(args, 1, 0);
                Value::Number(op_get_pixel32(&world.bitmaps[b], x, y))
            } else {
                Value::Number(-1i32)
            }
        },
        None => Value::Number(-1i32),
    }
}

/// Write the RGB of one pixel keeping its alpha; `-1` for a dead
/// receiver or missing arguments.
pub fn set_pixel(world: &mut World, this: usize, args: &[Value]) -> (r: Value)
    requires
        old(world).wf(),
    ensures
        final(world).wf(),
        match live_bitmap(*old(world), this as int) {
            Some(b) => if args@.len() >= 3 {
                &&& r == Value::Undefined
                &&& one_bitmap_changed(*old(world), *final(world), b as int)
                &&& set_pixel_rel(
                    old(world).bitmaps@[b as int],
                    final(world).bitmaps@[b as int],
                    arg_u32_or(args@, 0, 0u32),
                    arg_u32_or(args@, 1, 0u32),
                    arg_i32_or(args@, 2, 0i32),
                )
            } else {
                r == Value::Number(-1i32) && *final(world) == *old(world)
            },
            None => r == Value::Number(-1i32) && *final(world) == *old(world),
        },
{
    match live_bitmap_of(world, this) {
        Some(b) => {
            if args.len() >= 3 {
                let x = arg_u32(args, 0, 0);
                let y = arg_u32(args, 1, 0);
                let color = arg_i32(args, 2, 0);
                let bm = &mut world.bitmaps[b];
                op_set_pixel(bm, x, y, color);
                proof {
                    lemma_world_one_bitmap(*old(world), *world, b as int);
                }
                Value::Undefined
            } else {
                Value::Number(-1i32)
            }
        },
        None => Value::Number(-1i32),
    }
}

/// Write one full ARGB pixel; a no-op returning `undefined` when the
/// coordinates or color are missing; `-1` for a dead receiver.
pub fn set_pixel32(world: &mut World, this: usize, args: &[Value]) -> (r: Value)
    requires
        old(world).wf(),
    ensures
        final(world).wf(),
        match live_bitmap(*old(world), this as int) {
            Some(b) => {
                &&& r == Value::Undefined
                &&& if args@.len() >= 3 {
                    one_bitmap_changed(*old(world), *final(world), b as int) && set_pixel32_rel(
                        old(world).bitmaps@[b as int],
                        final(world).bitmaps@[b as int],
                        arg_u32_or(args@, 0, 0u32),
                        arg_u32_or(args@, 1, 0u32),
                        arg_i32_or(args@, 2, 0i32),
                    )
                } else {
                    *final(world) == *old(world)
                }
            },
            None => r == Value::Number(-1i32) && *final(world) == *old(world),
        },
{
    match live_bitmap_of(world, this) {
        Some(b) => {
            if args.len() >= 3 {
                let x = arg_u32(args, 0, 0);
                let y = arg_u32(args, 1, 0);
                let color = arg_i32(args, 2, 0);
                let bm = &mut world.bitmaps[b];
                op_set_pixel32(bm, x, y, color);
                proof {
                    lemma_world_one_bitmap(*old(world), *world, b as int);
                }
            }
            Value::Undefined
        },
        None => Value::Number(-1i32),
    }
}

/// Fill a rectangle with one color; a no-op returning `undefined` when
/// the color is missing; `-1` for a dead receiver.
pub fn fill_rect(world: &mut World, this: usize, args: &[Value]) -> (r: Value)
    requires
        old(world).wf(),
    ensures
        final(world).wf(),
        match live_bitmap(*old(world), this as int) {
            Some(b) => {
                &&& r == Value::Undefined
                &&& if args@.len() >= 2 {
                    ({
                        let rect = arg_object(args@, 0);
                        one_bitmap_changed(*old(world), *final(world), b as int) && fill_rect_rel(
                            old(world).bitmaps@[b as int],
                            final(world).bitmaps@[b as int],
                            obj_prop_i32(*old(world), rect, name_x()),
                            obj_prop_i32(*old(world), rect, name_y()),
                            obj_prop_i32(*old(world), rect, name_width()),
                            obj_prop_i32(*old(world), rect, name_height()),
                            arg_i32_or(args@, 1, 0i32),
                        )
                    })
                } else {
                    *final(world) == *old(world)
                }
            },
            None => r == Value::Number(-1i32) && *final(world) == *old(world),
        },
{
    let rect = arg_obj(args, 0);
    match live_bitmap_of(world, this) {
        Some(b) => {
            if args.len() >= 2 {
                let color = arg_i32(args, 1, 0);
                let (x, y, w, h) = match rect {
                    Some(o) => (
                        world.get_prop_i32(o, &name_x_vec()),
                        world.get_prop_i32(o, &name_y_vec()),
                        world.get_prop_i32(o, &name_width_vec()),
                        world.get_prop_i32(o, &name_height_vec()),
                    ),
                    None => (0, 0, 0, 0),
                };
                let bm = &mut world.bitmaps[b];
                op_fill_rect(bm, x, y, w, h, color);
                proof {
                    lemma_world_one_bitmap(*old(world), *world, b as int);
                }
            }
            Value::Undefined
        },
        None => Value::Number(-1i32),
    }
}

/// Flood-fill from a seed pixel; a no-op returning `undefined` when
/// arguments are missing; `-1` for a dead receiver.
pub fn flood_fill(world: &mut World, this: usize, args: &[Value]) -> (r: Value)
    requires
        old(world).wf(),
    ensures
        final(world).wf(),
        match live_bitmap(*old(world), this as int) {
            Some(b) => {
                &&& r == Value::Undefined
                &&& if args@.len() >= 3 {
                    one_bitmap_changed(*old(world), *final(world), b as int) && flood_fill_rel(
                        old(world).bitmaps@[b as int],
                        final(world).bitmaps@[b as int],
                        arg_u32_or(args@, 0, 0u32),
                        arg_u32_or(args@, 1, 0u32),
                        arg_i32_or(args@, 2, 0i32),
                    )
                } else {
                    *final(world) == *old(world)
                }
            },
            None => r == Value::Number(-1i32) && *final(world) == *old(world),
        },
{
    match live_bitmap_of(world, this) {
        Some(b) => {
            if args.len() >= 3 {
                let x = arg_u32(args, 0, 0);
                let y = arg_u32(args, 1, 0);
                let color = arg_i32(args, 2, 0);
                let bm = &mut world.bitmaps[b];
                op_flood_fill(bm, x, y, color);
                proof {
                    lemma_world_one_bitmap(*old(world), *world, b as int);
                }
            }
            Value::Undefined
        },
        None => Value::Number(-1i32),
    }
}

/// Fill the receiver with pseudo-random noise drawn deterministically
/// from the seed argument; a no-op returning `undefined` when the seed
/// is missing; `-1` for a dead receiver.
pub fn noise(world: &mut World, this: usize, args: &[Value]) -> (r: Value)
    requires
        old(world).wf(),
    ensures
        final(world).wf(),
        match live_bitmap(*old(world), this as int) {
            Some(b) => {
                &&& r == Value::Undefined
                &&& if args@.len() >= 1 {
                    ({
                        let low = arg_u32_or(args@, 1, 0u32) as u8;
                        let high = arg_u32_or(args@, 2, 0xFFu32) as u8;
                        let hi = if high < low {
                            low
                        } else {
                            high
                        };
                        let channels = if args@.len() >= 4 {
                            arg_u32_or(args@, 3, 0u32) as u8
                        } else {
                            7u8
                        };
                        let gray = arg_truthy_or(args@, 4, false);
                        one_bitmap_changed(*old(world), *final(world), b as int)
                            && crate::bitmap::noise_rel(
                            old(world).bitmaps@[b as int],
                            final(world).bitmaps@[b as int],
                            arg_i32_or(args@, 0, 0i32),
                            low,
                            hi,
                            channels,
                            gray,
                        )
                    })
                } else {
                    *final(world) == *old(world)
                }
            },
            None => r == Value::Number(-1i32) && *final(world) == *old(world),
        },
{
    let low = arg_u32(args, 1, 0) as u8;
    let high = arg_u32(args, 2, 0xFF) as u8;
    let hi = if high < low {
        low
    } else {
        high
    };
    let channels = if args.len() >= 4 {
        arg_u32(args, 3, 0) as u8
    } else {
        7u8
    };
    let gray = arg_truthy(args, 4, false);
    match live_bitmap_of(world, this) {
        Some(b) => {
            if args.len() >= 1 {
                let seed = arg_i32(args, 0, 0);
                let bm = &mut world.bitmaps[b];
                crate::bitmap::op_noise(bm, seed, low, hi, channels, gray);
                proof {
                    lemma_world_one_bitmap(*old(world), *world, b as int);
                }
            }
            Value::Undefined
        },
        None => Value::Number(-1),
    }
}

/// An independent copy of the receiver as a fresh BitmapData object;
/// `-1` for a dead receiver.
pub fn clone(world: &mut World, this: usize, args: &[Value]) -> (r: Value)
    requires
        old(world).wf(),
    ensures
        final(world).wf(),
        match live_bitmap(*old(world), this as int) {
            Some(b) => {
                &&& r == Value::Object(old(world).objects@.len() as usize)
                &&& final(world).objects@.len() == old(world).objects@.len() + 1
                &&& (forall|j: int| 0 <= j < old(world).objects@.len()
                    ==> final(world).objects@[j] == old(world).objects@[j])
                &&& final(world).objects@[old(world).objects@.len() as int].bitmap == Some(
                    old(world).bitmaps@.len() as usize,
                )
                &&& final(world).bitmaps@.len() == old(world).bitmaps@.len() + 1
                &&& (forall|j: int| 0 <= j < old(world).bitmaps@.len()
                    ==> final(world).bitmaps@[j] == old(world).bitmaps@[j])
                &&& ({
                    let nb = final(world).bitmaps@[old(world).bitmaps@.len() as int];
                    let ob = old(world).bitmaps@[b as int];
                    &&& nb.width == ob.width
                    &&& nb.height == ob.height
                    &&& nb.transparency == ob.transparency
                    &&& !nb.disposed
                    &&& (forall|j: int, i: int| 0 <= j < ob.height && 0 <= i < ob.width
                        ==> pix(nb, i, j) == pix(ob, i, j))
                })
                &&& final(world).library@ == old(world).library@
                &&& final(world).swf_version == old(world).swf_version
            },
            None => *final(world) == *old(world) && r == Value::Number(-1i32),
        },
{
    match live_bitmap_of(world, this) {
        Some(b) => {
            let copy = clone_bitmap(&world.bitmaps[b]);
            let o = world.register_bitmap(copy);
            Value::Object(o)
        },
        None => Value::Number(-1i32),
    }
}

/// Dispose the receiver's pixels; `-1` for a dead receiver.
pub fn dispose(world: &mut World, this: usize, args: &[Value]) -> (r: Value)
    requires
        old(world).wf(),
    ensures
        final(world).wf(),
        match live_bitmap(*old(world), this as int) {
            Some(b) => {
                &&& r == Value::Undefined
                &&& one_bitmap_changed(*old(world), *final(world), b as int)
                &&& final(world).bitmaps@[b as int].disposed
                &&& final(world).bitmaps@[b as int].width == 0
                &&& final(world).bitmaps@[b as int].height == 0
            },
            None => r == Value::Number(-1i32) && *final(world) == *old(world),
        },
{
    match live_bitmap_of(world, this) {
        Some(b) => {
            let bm = &mut world.bitmaps[b];
            dispose_bitmap(bm);
            proof {
                lemma_world_one_bitmap(*old(world), *world, b as int);
            }
            Value::Undefined
        },
        None => Value::Number(-1i32),
    }
}

/// Unimplemented filter application: always the sentinel `-1`.
pub fn apply_filter(world: &World, this: usize, args: &[Value]) -> (r: Value)
    ensures
        r == Value::Number(-1i32),
{
    Value::Number(-1i32)
}

/// Unimplemented filter-rect computation: `undefined` on a live
/// receiver, `-1` otherwise.
pub fn generate_filter_rect(world: &World, this: usize, args: &[Value]) -> (r: Value)
    requires
        world.wf(),
    ensures
        r == (match live_bitmap(*world, this as int) {
            Some(_) => Value::Undefined,
            None => Value::Number(-1i32),
        }),
{
    match live_bitmap_of(world, this) {
        Some(_) => Value::Undefined,
        None => Value::Number(-1i32),
    }
}

/// Unimplemented pixel dissolve: `undefined` on a live receiver, `-1`
/// otherwise.
pub fn pixel_dissolve(world: &World, this: usize, args: &[Value]) -> (r: Value)
    requires
        world.wf(),
    ensures
        r == (match live_bitmap(*world, this as int) {
            Some(_) => Value::Undefined,
            None => Value::Number(-1i32),
        }),
{
    match live_bitmap_of(world, this) {
        Some(_) => Value::Undefined,
        None => Value::Number(-1i32),
    }
}

/// Load a bitmap symbol exported by the movie library under the given
/// name into a fresh BitmapData object; `undefined` when the name is not
/// a string or names no symbol.
pub fn load_bitmap(world: &mut World, this: usize, args: &[Value]) -> (r: Value)
    requires
        old(world).wf(),
    ensures
        final(world).wf(),
        ({
            let found = if args@.len() >= 1 {
                match args@[0] {
                    Value::String(s) => find_symbol(old(world).library@, s@),
                    _ => -1,
                }
            } else {
                -1
            };
            if found >= 0 {
                ({
                    let sym = old(world).library@[found];
                    &&& r == Value::Object(old(world).objects@.len() as usize)
                    &&& final(world).objects@.len() == old(world).objects@.len() + 1
                    &&& (forall|j: int| 0 <= j < old(world).objects@.len()
                        ==> final(world).objects@[j] == old(world).objects@[j])
                    &&& final(world).objects@[old(world).objects@.len() as int].bitmap == Some(
                        old(world).bitmaps@.len() as usize,
                    )
                    &&& final(world).bitmaps@.len() == old(world).bitmaps@.len() + 1
                    &&& (forall|j: int| 0 <= j < old(world).bitmaps@.len()
                        ==> final(world).bitmaps@[j] == old(world).bitmaps@[j])
                    &&& ({
                        let nb = final(world).bitmaps@[old(world).bitmaps@.len() as int];
                        &&& nb.width == sym.width
                        &&& nb.height == sym.height
                        &&& nb.transparency
                        &&& !nb.disposed
                        &&& (forall|j: int, i: int| 0 <= j < sym.height && 0 <= i < sym.width
                            ==> pix(nb, i, j) == sym.rows@[j]@[i])
                    })
                    &&& final(world).library@ == old(world).library@
                    &&& final(world).swf_version == old(world).swf_version
                })
            } else {
                r == Value::Undefined && *final(world) == *old(world)
            }
        }),
{
    if args.len() >= 1 {
        match &args[0] {
            Value::String(s) => {
                let name = crate::util::copy_bytes(s);
                let mut i: usize = 0;
                while i < world.library.len()
                    invariant
                        world.wf(),
                        *world == *old(world),
                        name@ == s@,
                        0 < args@.len(),
                        args@[0] matches Value::String(s2) && s2@ == name@,
                        i <= world.library@.len(),
                        forall|j: int| 0 <= j < i ==> world.library@[j].name@ != name@,
                    decreases world.library@.len() - i,
                {
                    if crate::util::bytes_eq(&world.library[i].name, &name) {
                        proof {
                            lemma_find_symbol(world.library@, name@);
                            assert(world.library@[i as int].wf());
                        }
                        let sym_w = world.library[i].width;
                        let sym_h = world.library[i].height;
                        let rows = copy_grid(&world.library[i].rows);
                        let bm = BitmapData {
                            width: sym_w,
                            height: sym_h,
                            transparency: true,
                            disposed: false,
                            rows,
                        };
                        let o = world.register_bitmap(bm);
                        return Value::Object(o);
                    }
                    i += 1;
                }
                proof {
                    lemma_find_symbol(world.library@, name@);
                }
                Value::Undefined
            },
            _ => Value::Undefined,
        }
    } else {
        Value::Undefined
    }
}

/// The live bitmap behind an optionally present object handle.
pub open spec fn live_bitmap_opt(w: World, oo: Option<usize>) -> Option<usize> {
    match oo {
        Some(o) => live_bitmap(w, o as int),
        None => None,
    }
}

/// The bitmap (live or not) behind an optionally present object handle.
pub open spec fn bitmap_opt(w: World, oo: Option<usize>) -> Option<usize> {
    match oo {
        Some(o) => crate::avm1::spec_bitmap_of(w, o as int),
        None => None,
    }
}

/// A region operation was applied onto bitmap `b` reading bitmap `sb` as
/// it stood before the call; nothing else changed.
pub open spec fn region_glue_post(
    pre: World,
    post: World,
    b: int,
    sb: int,
    sx: i32,
    sy: i32,
    sw: i32,
    sh: i32,
    dx: i32,
    dy: i32,
    op: crate::bitmap::RegionOp,
) -> bool {
    &&& one_bitmap_changed(pre, post, b)
    &&& crate::bitmap::copy_region_rel(
        pre.bitmaps@[b],
        post.bitmaps@[b],
        pre.bitmaps@[sb].rows@,
        pre.bitmaps@[sb].width as int,
        pre.bitmaps@[sb].height as int,
        sx as int,
        sy as int,
        sw as int,
        sh as int,
        dx as int,
        dy as int,
        op,
    )
}

/// Read the four rectangle properties of an optionally present object.
fn read_rect(world: &World, oo: Option<usize>) -> (r: (i32, i32, i32, i32))
    ensures
        r.0 == obj_prop_i32(*world, oo, name_x()),
        r.1 == obj_prop_i32(*world, oo, name_y()),
        r.2 == obj_prop_i32(*world, oo, name_width()),
        r.3 == obj_prop_i32(*world, oo, name_height()),
{
    match oo {
        Some(o) => (
            world.get_prop_i32(o, &name_x_vec()),
            world.get_prop_i32(o, &name_y_vec()),
            world.get_prop_i32(o, &name_width_vec()),
            world.get_prop_i32(o, &name_height_vec()),
        ),
        None => (0, 0, 0, 0),
    }
}

/// Read the two point properties of an optionally present object.
fn read_point(world: &World, oo: Option<usize>) -> (r: (i32, i32))
    ensures
        r.0 == obj_prop_i32(*world, oo, name_x()),
        r.1 == obj_prop_i32(*world, oo, name_y()),
{
    match oo {
        Some(o) => (world.get_prop_i32(o, &name_x_vec()), world.get_prop_i32(o, &name_y_vec())),
        None => (0, 0),
    }
}

/// Snapshot of a bitmap's rows, suitable as a region-operation source.
fn snapshot_rows(world: &World, sb: usize) -> (r: Vec<Vec<u32>>)
    requires
        world.wf(),
        sb < world.bitmaps@.len(),
    ensures
        r@.len() == world.bitmaps@[sb as int].rows@.len(),
        forall|j: int| 0 <= j < r@.len() ==> (#[trigger] r@[j])@
            == world.bitmaps@[sb as int].rows@[j]@,
        crate::bitmap::grid_wf(
            r@,
            world.bitmaps@[sb as int].width as int,
            world.bitmaps@[sb as int].height as int,
        ),
{
    proof {
        assert(world.bitmaps@[sb as int].wf());
    }
    let r = crate::bitmap::copy_grid(&world.bitmaps[sb].rows);
    proof {
        assert forall|j: int| 0 <= j < r@.len() implies (#[trigger] r@[j])@.len()
            == world.bitmaps@[sb as int].width by {
            assert(world.bitmaps@[sb as int].rows@[j]@.len() == world.bitmaps@[sb as int].width);
        }
    }
    r
}

/// Run a region operation from source bitmap `sb` onto destination `b`,
/// reading the source as it stood on entry.
fn run_region_op(
    world: &mut World,
    b: usize,
    sb: usize,
    sx: i32,
    sy: i32,
    sw: i32,
    sh: i32,
    dx: i32,
    dy: i32,
    op: &crate::bitmap::RegionOp,
) -> (count: u64)
    requires
        old(world).wf(),
        b < old(world).bitmaps@.len(),
        sb < old(world).bitmaps@.len(),
        crate::bitmap::region_op_wf(*op),
    ensures
        final(world).wf(),
        region_glue_post(*old(world), *final(world), b as int, sb as int, sx, sy, sw, sh, dx, dy, *op),
        count == crate::bitmap::region_count_spec(
            old(world).bitmaps@[b as int],
            old(world).bitmaps@[sb as int].rows@,
            old(world).bitmaps@[sb as int].width as int,
            old(world).bitmaps@[sb as int].height as int,
            sx as int,
            sy as int,
            sw as int,
            sh as int,
            dx as int,
            dy as int,
            *op,
        ),
        count <= 67108864,
{
    let snap = snapshot_rows(world, sb);
    let src_w = world.bitmaps[sb].width;
    let src_h = world.bitmaps[sb].height;
    proof {
        assert(old(world).bitmaps@[sb as int].wf());
        assert(old(world).bitmaps@[b as int].wf());
    }
    let bm = &mut world.bitmaps[b];
    let count = crate::bitmap::op_copy_region(bm, &snap, src_w, src_h, sx, sy, sw, sh, dx, dy, op);
    proof {
        lemma_world_one_bitmap(*old(world), *world, b as int);
        crate::bitmap::lemma_copy_region_src_congruent(
            old(world).bitmaps@[b as int],
            world.bitmaps@[b as int],
            snap@,
            old(world).bitmaps@[sb as int].rows@,
            src_w as int,
            src_h as int,
            sx as int,
            sy as int,
            sw as int,
            sh as int,
            dx as int,
            dy as int,
            *op,
        );
        crate::bitmap::lemma_count_rect_congruent(
            *op,
            snap@,
            old(world).bitmaps@[sb as int].rows@,
            sx as int + crate::bitmap::cdi_lo(sx as int, dx as int),
            sy as int + crate::bitmap::cdi_lo(sy as int, dy as int),
            crate::bitmap::cdi_hi(
                sw as int,
                src_w as int,
                sx as int,
                old(world).bitmaps@[b as int].width as int,
                dx as int,
            ) - crate::bitmap::cdi_lo(sx as int, dx as int),
            crate::bitmap::cdi_hi(
                sh as int,
                src_h as int,
                sy as int,
                old(world).bitmaps@[b as int].height as int,
                dy as int,
            ) - crate::bitmap::cdi_lo(sy as int, dy as int),
        );
    }
    count
}

/// Shift the receiver's contents by a pixel offset; uncovered pixels
/// keep their old value; `-1` for a dead receiver.
pub fn scroll(world: &mut World, this: usize, args: &[Value]) -> (r: Value)
    requires
        old(world).wf(),
    ensures
        final(world).wf(),
        match live_bitmap(*old(world), this as int) {
            Some(b) => {
                &&& r == Value::Undefined
                &&& region_glue_post(
                    *old(world),
                    *final(world),
                    b as int,
                    b as int,
                    0i32,
                    0i32,
                    old(world).bitmaps@[b as int].width as i32,
                    old(world).bitmaps@[b as int].height as i32,
                    arg_i32_or(args@, 0, 0i32),
                    arg_i32_or(args@, 1, 0i32),
                    crate::bitmap::RegionOp::CopyPixels {
                        merge_alpha: false,
                        src_transparency: true,
                        dst_transparency: true,
                    },
                )
            },
            None => r == Value::Number(-1i32) && *final(world) == *old(world),
        },
{
    let dx = arg_i32(args, 0, 0);
    let dy = arg_i32(args, 1, 0);
    match live_bitmap_of(world, this) {
        Some(b) => {
            let w = world.bitmaps[b].width as i32;
            let h = world.bitmaps[b].height as i32;
            let op = crate::bitmap::RegionOp::CopyPixels {
                merge_alpha: false,
                src_transparency: true,
                dst_transparency: true,
            };
            let _ = run_region_op(world, b, b, 0, 0, w, h, dx, dy, &op);
            Value::Undefined
        },
        None => Value::Number(-1),
    }
}

/// The channel shift a numeric channel code names: 8 the alpha channel,
/// 4 blue, 2 green, anything else red.
pub open spec fn channel_shift(c: i32) -> u32 {
    if c == 8 {
        24u32
    } else if c == 4 {
        0u32
    } else if c == 2 {
        8u32
    } else {
        16u32
    }
}

fn channel_shift_of(c: i32) -> (r: u32)
    ensures
        r == channel_shift(c),
        r == 0 || r == 8 || r == 16 || r == 24,
{
    if c == 8 {
        24
    } else if c == 4 {
        0
    } else if c == 2 {
        8
    } else {
        16
    }
}

fn u32_to_i32(x: u32) -> (r: i32)
    ensures
        r == x as i32,
{
    #[verifier::truncate] (x as i32)
}

/// Copy one channel of a source bitmap into one channel of the receiver;
/// the destination point is clamped to the receiver's size; `undefined`
/// on a live receiver (whether or not the source is a bitmap), `-1`
/// otherwise.
pub fn copy_channel(world: &mut World, this: usize, args: &[Value]) -> (r: Value)
    requires
        old(world).wf(),
    ensures
        final(world).wf(),
        match live_bitmap(*old(world), this as int) {
            Some(b) => {
                &&& r == Value::Undefined
                &&& match bitmap_opt(*old(world), arg_object(args@, 0)) {
                    Some(sb) => region_glue_post(
                        *old(world),
                        *final(world),
                        b as int,
                        sb as int,
                        (obj_prop_i32(*old(world), arg_object(args@, 1), name_x()) as u32) as i32,
                        (obj_prop_i32(*old(world), arg_object(args@, 1), name_y()) as u32) as i32,
                        (obj_prop_i32(*old(world), arg_object(args@, 1), name_width()) as u32) as i32,
                        (obj_prop_i32(*old(world), arg_object(args@, 1), name_height()) as u32) as i32,
                        ({
                            let dxu = obj_prop_i32(*old(world), arg_object(args@, 2), name_x()) as u32;
                            let wd = old(world).bitmaps@[b as int].width;
                            ((if dxu < wd { dxu } else { wd }) as i32)
                        }),
                        ({
                            let dyu = obj_prop_i32(*old(world), arg_object(args@, 2), name_y()) as u32;
                            let ht = old(world).bitmaps@[b as int].height;
                            ((if dyu < ht { dyu } else { ht }) as i32)
                        }),
                        crate::bitmap::RegionOp::CopyChannel {
                            src_shift: channel_shift(arg_i32_or(args@, 3, 0i32)),
                            dst_shift: channel_shift(arg_i32_or(args@, 4, 0i32)),
                        },
                    ),
                    None => *final(world) == *old(world),
                }
            },
            None => r == Value::Number(-1i32) && *final(world) == *old(world),
        },
{
    let source = arg_obj(args, 0);
    let source_rect = arg_obj(args, 1);
    let dest_point = arg_obj(args, 2);
    let source_channel = arg_i32(args, 3, 0);
    let dest_channel = arg_i32(args, 4, 0);
    match live_bitmap_of(world, this) {
        Some(b) => {
            let sb_opt = match source {
                Some(so) => world.bitmap_of(so),
                None => None,
            };
            match sb_opt {
                Some(sb) => {
                    proof {
                        match source {
                            Some(so) => {
                                assert(world.obj_ok(so as int));
                            },
                            None => {},
                        }
                    }
                    let (sx, sy, sw, sh) = read_rect(world, source_rect);
                    let (dpx, dpy) = read_point(world, dest_point);
                    let wd = world.bitmaps[b].width;
                    let ht = world.bitmaps[b].height;
                    let dxu = dpx as u32;
                    let dyu = dpy as u32;
                    let min_x = if dxu < wd {
                        dxu
                    } else {
                        wd
                    };
                    let min_y = if dyu < ht {
                        dyu
                    } else {
                        ht
                    };
                    let op = crate::bitmap::RegionOp::CopyChannel {
                        src_shift: channel_shift_of(source_channel),
                        dst_shift: channel_shift_of(dest_channel),
                    };
                    let _ = run_region_op(
                        world,
                        b,
                        sb,
                        u32_to_i32(sx as u32),
                        u32_to_i32(sy as u32),
                        u32_to_i32(sw as u32),
                        u32_to_i32(sh as u32),
                        u32_to_i32(min_x),
                        u32_to_i32(min_y),
                        &op,
                    );
                },
                None => {},
            }
            Value::Undefined
        },
        None => Value::Number(-1),
    }
}

/// Per-channel weighted merge of a live source bitmap onto the receiver;
/// `undefined` on a live receiver, `-1` otherwise.
pub fn merge(world: &mut World, this: usize, args: &[Value]) -> (r: Value)
    requires
        old(world).wf(),
    ensures
        final(world).wf(),
        match live_bitmap(*old(world), this as int) {
            Some(b) => {
                &&& r == Value::Undefined
                &&& match live_bitmap_opt(*old(world), arg_object(args@, 0)) {
                    Some(sb) => region_glue_post(
                        *old(world),
                        *final(world),
                        b as int,
                        sb as int,
                        obj_prop_i32(*old(world), arg_object(args@, 1), name_x()),
                        obj_prop_i32(*old(world), arg_object(args@, 1), name_y()),
                        obj_prop_i32(*old(world), arg_object(args@, 1), name_width()),
                        obj_prop_i32(*old(world), arg_object(args@, 1), name_height()),
                        obj_prop_i32(*old(world), arg_object(args@, 2), name_x()),
                        obj_prop_i32(*old(world), arg_object(args@, 2), name_y()),
                        crate::bitmap::RegionOp::Merge {
                            red_mult: arg_i32_or(args@, 3, 0i32),
                            green_mult: arg_i32_or(args@, 4, 0i32),
                            blue_mult: arg_i32_or(args@, 5, 0i32),
                            alpha_mult: arg_i32_or(args@, 6, 0i32),
                        },
                    ),
                    None => *final(world) == *old(world),
                }
            },
            None => r == Value::Number(-1i32) && *final(world) == *old(world),
        },
{
    match live_bitmap_of(world, this) {
        Some(b) => {
            let (sx, sy, sw, sh) = read_rect(world, arg_obj(args, 1));
            let (dx, dy) = read_point(world, arg_obj(args, 2));
            let rm = arg_i32(args, 3, 0);
            let gm = arg_i32(args, 4, 0);
            let bmu = arg_i32(args, 5, 0);
            let am = arg_i32(args, 6, 0);
            let src = arg_obj(args, 0);
            let sb_opt = match src {
                Some(so) => live_bitmap_of(world, so),
                None => None,
            };
            match sb_opt {
                Some(sb) => {
                    let op = crate::bitmap::RegionOp::Merge {
                        red_mult: rm,
                        green_mult: gm,
                        blue_mult: bmu,
                        alpha_mult: am,
                    };
                    let _ = run_region_op(world, b, sb, sx, sy, sw, sh, dx, dy, &op);
                },
                None => {},
            }
            Value::Undefined
        },
        None => Value::Number(-1),
    }
}

/// The entry a palette-map channel table holds at `i`: a table object's
/// coerced element, or the identity mapping shifted into the channel.
pub open spec fn spec_channel_entry(w: World, args: Seq<Value>, idx: int, shift: u32, i: int) -> u32 {
    match arg_object(args, idx) {
        Some(o) => spec_element_u32(w, o as int, i),
        None => ((i as u32) << shift),
    }
}

fn build_channel_array(world: &World, args: &[Value], idx: usize, shift: u32) -> (r: Vec<u32>)
    requires
        shift == 0 || shift == 8 || shift == 16 || shift == 24,
    ensures
        r@.len() == 256,
        forall|i: int| 0 <= i < 256 ==> r@[i] == spec_channel_entry(
            *world,
            args@,
            idx as int,
            shift,
            i,
        ),
{
    let ob = arg_obj(args, idx);
    let mut r: Vec<u32> = Vec::new();
    let mut i: usize = 0;
    while i < 256
        invariant
            shift == 0 || shift == 8 || shift == 16 || shift == 24,
            i <= 256,
            r@.len() == i,
            ob == arg_object(args@, idx as int),
            forall|j: int| 0 <= j < i ==> r@[j] == spec_channel_entry(
                *world,
                args@,
                idx as int,
                shift,
                j,
            ),
        decreases 256 - i,
    {
        match ob {
            Some(o) => {
                r.push(world.element_u32(o, i));
            },
            None => {
                r.push((i as u32) << shift);
            },
        }
        i += 1;
    }
    r
}

/// Remap the receiver's pixels through per-channel lookup tables read
/// from a live source bitmap; `undefined` on a live receiver, `-1`
/// otherwise.
pub fn palette_map(world: &mut World, this: usize, args: &[Value]) -> (r: Value)
    requires
        old(world).wf(),
    ensures
        final(world).wf(),
        match live_bitmap(*old(world), this as int) {
            Some(b) => {
                &&& r == Value::Undefined
                &&& match live_bitmap_opt(*old(world), arg_object(args@, 0)) {
                    Some(sb) => exists|op: crate::bitmap::RegionOp|
                        (#[trigger] region_glue_post(
                            *old(world),
                            *final(world),
                            b as int,
                            sb as int,
                            obj_prop_i32(*old(world), arg_object(args@, 1), name_x()),
                            obj_prop_i32(*old(world), arg_object(args@, 1), name_y()),
                            obj_prop_i32(*old(world), arg_object(args@, 1), name_width()),
                            obj_prop_i32(*old(world), arg_object(args@, 1), name_height()),
                            obj_prop_i32(*old(world), arg_object(args@, 2), name_x()),
                            obj_prop_i32(*old(world), arg_object(args@, 2), name_y()),
                            op,
                        )) && (op matches crate::bitmap::RegionOp::PaletteMap {
                            reds,
                            greens,
                            blues,
                            alphas,
                        } && reds@.len() == 256 && greens@.len() == 256 && blues@.len() == 256
                            && alphas@.len() == 256 && (forall|i: int|
                            0 <= i < 256 ==> reds@[i] == spec_channel_entry(*old(world), args@, 3,
                            16u32, i)) && (forall|i: int|
                            0 <= i < 256 ==> greens@[i] == spec_channel_entry(*old(world), args@,
                            4, 8u32, i)) && (forall|i: int|
                            0 <= i < 256 ==> blues@[i] == spec_channel_entry(*old(world), args@, 5,
                            0u32, i)) && (forall|i: int|
                            0 <= i < 256 ==> alphas@[i] == spec_channel_entry(*old(world), args@,
                            6, 24u32, i))),
                    None => *final(world) == *old(world),
                }
            },
            None => r == Value::Number(-1i32) && *final(world) == *old(world),
        },
{
    match live_bitmap_of(world, this) {
        Some(b) => {
            let (sx, sy, sw, sh) = read_rect(world, arg_obj(args, 1));
            let (dx, dy) = read_point(world, arg_obj(args, 2));
            let reds = build_channel_array(world, args, 3, 16);
            let greens = build_channel_array(world, args, 4, 8);
            let blues = build_channel_array(world, args, 5, 0);
            let alphas = build_channel_array(world, args, 6, 24);
            let src = arg_obj(args, 0);
            let sb_opt = match src {
                Some(so) => live_bitmap_of(world, so),
                None => None,
            };
            match sb_opt {
                Some(sb) => {
                    let op = crate::bitmap::RegionOp::PaletteMap { reds, greens, blues, alphas };
                    let _ = run_region_op(world, b, sb, sx, sy, sw, sh, dx, dy, &op);
                },
                None => {},
            }
            Value::Undefined
        },
        None => Value::Number(-1),
    }
}

/// The comparison code a threshold operation string names.
pub open spec fn parse_cmp_bytes(s: Seq<u8>) -> Option<u8> {
    if s.len() == 1 {
        if s[0] == 60u8 {
            Some(0u8)
        } else if s[0] == 62u8 {
            Some(2u8)
        } else {
            None
        }
    } else if s.len() == 2 {
        if s[0] == 60u8 && s[1] == 61u8 {
            Some(1u8)
        } else if s[0] == 62u8 && s[1] == 61u8 {
            Some(3u8)
        } else if s[0] == 61u8 && s[1] == 61u8 {
            Some(4u8)
        } else if s[0] == 33u8 && s[1] == 61u8 {
            Some(5u8)
        } else {
            None
        }
    } else {
        None
    }
}

/// The comparison code of the threshold-operation argument, when it is a
/// recognized operation string.
pub open spec fn spec_threshold_cmp(args: Seq<Value>, i: int) -> Option<u8> {
    if 0 <= i < args.len() {
        match args[i] {
            Value::String(s) => parse_cmp_bytes(s@),
            _ => None,
        }
    } else {
        None
    }
}

fn parse_threshold_cmp(args: &[Value], i: usize) -> (r: Option<u8>)
    ensures
        r == spec_threshold_cmp(args@, i as int),
{
    if i < args.len() {
        match &args[i] {
            Value::String(s) => {
                if s.len() == 1 {
                    if s[0] == 60u8 {
                        Some(0)
                    } else if s[0] == 62u8 {
                        Some(2)
                    } else {
                        None
                    }
                } else if s.len() == 2 {
                    if s[0] == 60u8 && s[1] == 61u8 {
                        Some(1)
                    } else if s[0] == 62u8 && s[1] == 61u8 {
                        Some(3)
                    } else if s[0] == 61u8 && s[1] == 61u8 {
                        Some(4)
                    } else if s[0] == 33u8 && s[1] == 61u8 {
                        Some(5)
                    } else {
                        None
                    }
                } else {
                    None
                }
            },
            _ => None,
        }
    } else {
        None
    }
}

/// Test source pixels against a masked threshold, recoloring matches and
/// counting them; `0` for an unrecognized operation string, `undefined`
/// for a dead source, `-1` for a dead receiver.
pub fn threshold(world: &mut World, this: usize, args: &[Value]) -> (r: Value)
    requires
        old(world).wf(),
    ensures
        final(world).wf(),
        match live_bitmap(*old(world), this as int) {
            Some(b) => match spec_threshold_cmp(args@, 3) {
                None => r == Value::Number(0i32) && *final(world) == *old(world),
                Some(cmp) => match live_bitmap_opt(*old(world), arg_object(args@, 0)) {
                    Some(sb) => ({
                        let op = crate::bitmap::RegionOp::Threshold {
                            cmp,
                            threshold: arg_u32_or(args@, 4, 0u32),
                            color: arg_i32_or(args@, 5, 0i32) as u32,
                            mask: arg_u32_or(args@, 6, 0xFFFF_FFFFu32),
                            copy_source: arg_truthy_or(args@, 7, false),
                        };
                        let sx = obj_prop_i32(*old(world), arg_object(args@, 1), name_x());
                        let sy = obj_prop_i32(*old(world), arg_object(args@, 1), name_y());
                        let sw = obj_prop_i32(*old(world), arg_object(args@, 1), name_width());
                        let sh = obj_prop_i32(*old(world), arg_object(args@, 1), name_height());
                        let dx = obj_prop_i32(*old(world), arg_object(args@, 2), name_x());
                        let dy = obj_prop_i32(*old(world), arg_object(args@, 2), name_y());
                        &&& region_glue_post(*old(world), *final(world), b as int, sb as int, sx,
                            sy, sw, sh, dx, dy, op)
                        &&& r == Value::Number(
                            crate::bitmap::region_count_spec(
                                old(world).bitmaps@[b as int],
                                old(world).bitmaps@[sb as int].rows@,
                                old(world).bitmaps@[sb as int].width as int,
                                old(world).bitmaps@[sb as int].height as int,
                                sx as int,
                                sy as int,
                                sw as int,
                                sh as int,
                                dx as int,
                                dy as int,
                                op,
                            ) as i32,
                        )
                    }),
                    None => r == Value::Undefined && *final(world) == *old(world),
                },
            },
            None => r == Value::Number(-1i32) && *final(world) == *old(world),
        },
{
    match live_bitmap_of(world, this) {
        Some(b) => {
            let (sx, sy, sw, sh) = read_rect(world, arg_obj(args, 1));
            let (dx, dy) = read_point(world, arg_obj(args, 2));
            let cmp = match parse_threshold_cmp(args, 3) {
                Some(c) => c,
                None => {
                    return Value::Number(0);
                },
            };
            let thr = arg_u32(args, 4, 0);
            let colour = arg_i32(args, 5, 0);
            let mask = arg_u32(args, 6, 0xFFFF_FFFF);
            let copy_source = arg_truthy(args, 7, false);
            let src = arg_obj(args, 0);
            let sb_opt = match src {
                Some(so) => live_bitmap_of(world, so),
                None => None,
            };
            match sb_opt {
                Some(sb) => {
                    let op = crate::bitmap::RegionOp::Threshold {
                        cmp,
                        threshold: thr,
                        color: colour as u32,
                        mask,
                        copy_source,
                    };
                    let count = run_region_op(world, b, sb, sx, sy, sw, sh, dx, dy, &op);
                    Value::Number(count as i32)
                },
                None => Value::Undefined,
            }
        },
        None => Value::Number(-1),
    }
}

/// Copy a source rectangle onto the receiver, optionally alpha-blending
/// it; a separate alpha-source bitmap argument only influences the
/// blending flag, its alpha plane is not read.  `undefined` on a live
/// receiver, `-1` otherwise.
pub fn copy_pixels(world: &mut World, this: usize, args: &[Value]) -> (r: Value)
    requires
        old(world).wf(),
    ensures
        final(world).wf(),
        match live_bitmap(*old(world), this as int) {
            Some(b) => {
                &&& r == Value::Undefined
                &&& match live_bitmap_opt(*old(world), arg_object(args@, 0)) {
                    Some(sb) => ({
                        let ma = if live_bitmap_opt(*old(world), arg_object(args@, 3)) is Some {
                            arg_truthy_or(args@, 5, true)
                        } else {
                            arg_truthy_or(args@, 5, false)
                        };
                        region_glue_post(
                            *old(world),
                            *final(world),
                            b as int,
                            sb as int,
                            obj_prop_i32(*old(world), arg_object(args@, 1), name_x()),
                            obj_prop_i32(*old(world), arg_object(args@, 1), name_y()),
                            obj_prop_i32(*old(world), arg_object(args@, 1), name_width()),
                            obj_prop_i32(*old(world), arg_object(args@, 1), name_height()),
                            obj_prop_i32(*old(world), arg_object(args@, 2), name_x()),
                            obj_prop_i32(*old(world), arg_object(args@, 2), name_y()),
                            crate::bitmap::RegionOp::CopyPixels {
                                merge_alpha: ma,
                                src_transparency: old(world).bitmaps@[sb as int].transparency,
                                dst_transparency: old(world).bitmaps@[b as int].transparency,
                            },
                        )
                    }),
                    None => *final(world) == *old(world),
                }
            },
            None => r == Value::Number(-1i32) && *final(world) == *old(world),
        },
{
    match live_bitmap_of(world, this) {
        Some(b) => {
            let (sx, sy, sw, sh) = read_rect(world, arg_obj(args, 1));
            let (dx, dy) = read_point(world, arg_obj(args, 2));
            let src = arg_obj(args, 0);
            let sb_opt = match src {
                Some(so) => live_bitmap_of(world, so),
                None => None,
            };
            match sb_opt {
                Some(sb) => {
                    let alpha_obj = arg_obj(args, 3);
                    let ab_opt = match alpha_obj {
                        Some(ao) => live_bitmap_of(world, ao),
                        None => None,
                    };
                    let ma = match ab_opt {
                        Some(_) => arg_truthy(args, 5, true),
                        None => arg_truthy(args, 5, false),
                    };
                    let op = crate::bitmap::RegionOp::CopyPixels {
                        merge_alpha: ma,
                        src_transparency: world.bitmaps[sb].transparency,
                        dst_transparency: world.bitmaps[b].transparency,
                    };
                    let _ = run_region_op(world, b, sb, sx, sy, sw, sh, dx, dy, &op);
                },
                None => {},
            }
            Value::Undefined
        },
        None => Value::Number(-1),
    }
}

/// Apply a color transform object's per-channel affine transform to a
/// rectangle of the receiver.  Returns `-3` when the transform argument
/// is not a color transform object, and otherwise `-1`, changed or not,
/// as the historical surface does.
pub fn color_transform(world: &mut World, this: usize, args: &[Value]) -> (r: Value)
    requires
        old(world).wf(),
    ensures
        final(world).wf(),
        match live_bitmap(*old(world), this as int) {
            Some(b) => if args@.len() >= 2 {
                match (match arg_object(args@, 1) {
                    Some(o) => crate::avm1::spec_color_transform_of(*old(world), o as int),
                    None => None,
                }) {
                    None => r == Value::Number(-3i32) && *final(world) == *old(world),
                    Some(ct) => ({
                        let x = obj_prop_i32(*old(world), arg_object(args@, 0), name_x());
                        let y = obj_prop_i32(*old(world), arg_object(args@, 0), name_y());
                        let w = obj_prop_i32(*old(world), arg_object(args@, 0), name_width());
                        let h = obj_prop_i32(*old(world), arg_object(args@, 0), name_height());
                        let x0 = if x < 0 {
                            0i32
                        } else {
                            x
                        };
                        let y0 = if y < 0 {
                            0i32
                        } else {
                            y
                        };
                        let swl = x as int + w as int - x0 as int;
                        let shl = y as int + h as int - y0 as int;
                        let swc = (if swl < 0 {
                            0int
                        } else if swl > 8191 {
                            8191int
                        } else {
                            swl
                        }) as i32;
                        let shc = (if shl < 0 {
                            0int
                        } else if shl > 8191 {
                            8191int
                        } else {
                            shl
                        }) as i32;
                        &&& r == Value::Number(-1i32)
                        &&& region_glue_post(
                            *old(world),
                            *final(world),
                            b as int,
                            b as int,
                            x0,
                            y0,
                            swc,
                            shc,
                            x0,
                            y0,
                            crate::bitmap::RegionOp::ColorTransform {
                                red_mult: ct.red_mult,
                                green_mult: ct.green_mult,
                                blue_mult: ct.blue_mult,
                                alpha_mult: ct.alpha_mult,
                                red_off: ct.red_off,
                                green_off: ct.green_off,
                                blue_off: ct.blue_off,
                                alpha_off: ct.alpha_off,
                            },
                        )
                    }),
                }
            } else {
                r == Value::Number(-1i32) && *final(world) == *old(world)
            },
            None => r == Value::Number(-1i32) && *final(world) == *old(world),
        },
{
    match live_bitmap_of(world, this) {
        Some(b) => {
            if args.len() >= 2 {
                let (x, y, w, h) = read_rect(world, arg_obj(args, 0));
                let ct = match arg_obj(args, 1) {
                    Some(o) => world.color_transform_of(o),
                    None => None,
                };
                match ct {
                    None => Value::Number(-3),
                    Some(ct) => {
                        let x0 = if x < 0 {
                            0
                        } else {
                            x
                        };
                        let y0 = if y < 0 {
                            0
                        } else {
                            y
                        };
                        let swl = x as i64 + w as i64 - x0 as i64;
                        let shl = y as i64 + h as i64 - y0 as i64;
                        let swc = if swl < 0 {
                            0i64
                        } else if swl > 8191 {
                            8191i64
                        } else {
                            swl
                        } as i32;
                        let shc = if shl < 0 {
                            0i64
                        } else if shl > 8191 {
                            8191i64
                        } else {
                            shl
                        } as i32;
                        let op = crate::bitmap::RegionOp::ColorTransform {
                            red_mult: ct.red_mult,
                            green_mult: ct.green_mult,
                            blue_mult: ct.blue_mult,
                            alpha_mult: ct.alpha_mult,
                            red_off: ct.red_off,
                            green_off: ct.green_off,
                            blue_off: ct.blue_off,
                            alpha_off: ct.alpha_off,
                        };
                        let _ = run_region_op(world, b, b, x0, y0, swc, shc, x0, y0, &op);
                        Value::Number(-1)
                    },
                }
            } else {
                Value::Number(-1)
            }
        },
        None => Value::Number(-1),
    }
}

/// The bounding rectangle of pixels matching (or not matching) a masked
/// color, as a fresh rectangle object; `-1` for a dead receiver or
/// missing arguments.
pub fn get_color_bounds_rect(world: &mut World, this: usize, args: &[Value]) -> (r: Value)
    requires
        old(world).wf(),
    ensures
        final(world).wf(),
        match live_bitmap(*old(world), this as int) {
            Some(b) => if args@.len() >= 2 {
                exists|rt: (u32, u32, u32, u32)|
                    {
                        &&& #[trigger] crate::bitmap::bounds_rect_spec(
                            old(world).bitmaps@[b as int],
                            arg_truthy_or(args@, 2, true),
                            arg_i32_or(args@, 0, 0i32) as u32,
                            arg_i32_or(args@, 1, 0i32) as u32,
                            rt,
                        )
                        &&& r == Value::Object(old(world).objects@.len() as usize)
                        &&& final(world).objects@.len() == old(world).objects@.len() + 1
                        &&& (forall|j: int| 0 <= j < old(world).objects@.len()
                            ==> final(world).objects@[j] == old(world).objects@[j])
                        &&& final(world).bitmaps@ == old(world).bitmaps@
                        &&& final(world).library@ == old(world).library@
                        &&& final(world).swf_version == old(world).swf_version
                        &&& ({
                            let props
                                = final(world).objects@[old(world).objects@.len() as int].props@;
                            &&& props.len() == 4
                            &&& props[0].0@ == name_x() && props[0].1 == Value::Number(
                                rt.0 as i32,
                            )
                            &&& props[1].0@ == name_y() && props[1].1 == Value::Number(
                                rt.1 as i32,
                            )
                            &&& props[2].0@ == name_width() && props[2].1 == Value::Number(
                                rt.2 as i32,
                            )
                            &&& props[3].0@ == name_height() && props[3].1 == Value::Number(
                                rt.3 as i32,
                            )
                        })
                    }
            } else {
                r == Value::Number(-1i32) && *final(world) == *old(world)
            },
            None => r == Value::Number(-1i32) && *final(world) == *old(world),
        },
{
    match live_bitmap_of(world, this) {
        Some(b) => {
            if args.len() >= 2 {
                let find = arg_truthy(args, 2, true);
                let mask = arg_i32(args, 0, 0);
                let color = arg_i32(args, 1, 0);
                let (x, y, w, h) = crate::bitmap::op_color_bounds_rect(
                    &world.bitmaps[b],
                    find,
                    mask as u32,
                    color as u32,
                );
                proof {
                    assert(x <= 8191 && y <= 8191 && w <= 8191 && h <= 8191);
                }
                let props = rect_props(
                    u32_to_i32(x),
                    u32_to_i32(y),
                    u32_to_i32(w),
                    u32_to_i32(h),
                );
                let o = world.new_object(props, Vec::new());
                Value::Object(o)
            } else {
                Value::Number(-1)
            }
        },
        None => Value::Number(-1),
    }
}

fn sub_wrap(a: i32, b: i32) -> (r: i32)
    ensures
        r == ((a - b) as i32),
{
    #[verifier::truncate] ((a as i64 - b as i64) as i32)
}

/// Hit-test the receiver against a point, a rectangle, or another
/// bitmap, by alpha threshold.  Sentinels: `-1` dead receiver, `-2`
/// invalid first point, `-3` disposed compare bitmap or invalid compare
/// object, `-4` invalid second point.
pub fn hit_test(world: &World, this: usize, args: &[Value]) -> (r: Value)
    requires
        world.wf(),
    ensures
        ({
            let w = *world;
            match live_bitmap(w, this as int) {
                None => r == Value::Number(-1i32),
                Some(b) => ({
                    let bm = w.bitmaps@[b as int];
                    let fp = arg_object(args@, 0);
                    let fp_ok = match fp {
                        Some(o) => crate::avm1::spec_has_prop(w, o as int, name_x())
                            && crate::avm1::spec_has_prop(w, o as int, name_y()),
                        None => false,
                    };
                    if !fp_ok {
                        r == Value::Number(-2i32)
                    } else {
                        let tlx = obj_prop_i32(w, fp, name_x());
                        let tly = obj_prop_i32(w, fp, name_y());
                        let st = arg_u32_or(args@, 1, 0u32);
                        let co = arg_object(args@, 2);
                        match bitmap_opt(w, co) {
                            Some(ob) => if w.bitmaps@[ob as int].disposed {
                                r == Value::Number(-3i32)
                            } else {
                                ({
                                    let sp = arg_object(args@, 3);
                                    let sp_ok = match sp {
                                        Some(o) => crate::avm1::spec_has_prop(w, o as int,
                                        name_x()) && crate::avm1::spec_has_prop(w, o as int,
                                        name_y()),
                                        None => false,
                                    };
                                    if !sp_ok {
                                        r == Value::Number(-4i32)
                                    } else {
                                        ({
                                            let spx = obj_prop_i32(w, sp, name_x());
                                            let spy = obj_prop_i32(w, sp, name_y());
                                            let st2 = arg_u32_or(args@, 4, 0u32);
                                            r == Value::Bool(
                                                exists|i: int, j: int|
                                                    crate::bitmap::in_bounds(bm, i, j)
                                                        && crate::bitmap::pixel_alpha(bm, i, j)
                                                        >= st && crate::bitmap::in_bounds(
                                                        w.bitmaps@[ob as int],
                                                        i + tlx - spx,
                                                        j + tly - spy,
                                                    ) && crate::bitmap::pixel_alpha(
                                                        w.bitmaps@[ob as int],
                                                        i + tlx - spx,
                                                        j + tly - spy,
                                                    ) >= st2,
                                            )
                                        })
                                    }
                                })
                            },
                            None => ({
                                let has_x = match co {
                                    Some(o) => crate::avm1::spec_has_prop(w, o as int, name_x()),
                                    None => false,
                                };
                                let has_y = match co {
                                    Some(o) => crate::avm1::spec_has_prop(w, o as int, name_y()),
                                    None => false,
                                };
                                let has_w = match co {
                                    Some(o) => crate::avm1::spec_has_prop(w, o as int,
                                    name_width()),
                                    None => false,
                                };
                                let has_h = match co {
                                    Some(o) => crate::avm1::spec_has_prop(w, o as int,
                                    name_height()),
                                    None => false,
                                };
                                let px = ((obj_prop_i32(w, co, name_x()) - tlx) as i32);
                                let py = ((obj_prop_i32(w, co, name_y()) - tly) as i32);
                                if has_x && has_y && !has_w && !has_h {
                                    r == Value::Bool(
                                        crate::bitmap::in_bounds(bm, px as int, py as int)
                                            && crate::bitmap::pixel_alpha(bm, px as int, py as int)
                                            >= st,
                                    )
                                } else if has_x && has_y && has_w && has_h {
                                    ({
                                        let rw = obj_prop_i32(w, co, name_width());
                                        let rh = obj_prop_i32(w, co, name_height());
                                        r == Value::Bool(
                                            exists|i: int, j: int|
                                                px <= i < px + rw && py <= j < py + rh
                                                    && crate::bitmap::in_bounds(bm, i, j)
                                                    && crate::bitmap::pixel_alpha(bm, i, j) >= st,
                                        )
                                    })
                                } else {
                                    r == Value::Number(-3i32)
                                }
                            }),
                        }
                    }
                }),
            }
        }),
{
    let b = match live_bitmap_of(world, this) {
        Some(b) => b,
        None => {
            return Value::Number(-1);
        },
    };
    let fp = arg_obj(args, 0);
    let fp_ok = match fp {
        Some(o) => world.has_prop(o, &name_x_vec()) && world.has_prop(o, &name_y_vec()),
        None => false,
    };
    if !fp_ok {
        return Value::Number(-2);
    }
    let (tlx, tly) = read_point(world, fp);
    let st = arg_u32(args, 1, 0);
    let co = arg_obj(args, 2);
    let ob_opt = match co {
        Some(o) => world.bitmap_of(o),
        None => None,
    };
    match ob_opt {
        Some(ob) => {
            proof {
                match co {
                    Some(o) => {
                        assert(world.obj_ok(o as int));
                        assert(world.bitmaps@[ob as int].wf());
                    },
                    None => {},
                }
            }
            if world.bitmaps[ob].disposed {
                return Value::Number(-3);
            }
            let sp = arg_obj(args, 3);
            let sp_ok = match sp {
                Some(o) => world.has_prop(o, &name_x_vec()) && world.has_prop(o, &name_y_vec()),
                None => false,
            };
            if !sp_ok {
                return Value::Number(-4);
            }
            let (spx, spy) = read_point(world, sp);
            let st2 = arg_u32(args, 4, 0);
            Value::Bool(
                crate::bitmap::op_hit_test_bitmapdata(
                    &world.bitmaps[b],
                    tlx,
                    tly,
                    st,
                    &world.bitmaps[ob],
                    spx,
                    spy,
                    st2,
                ),
            )
        },
        None => {
            let (has_x, has_y, has_w, has_h) = match co {
                Some(o) => (
                    world.has_prop(o, &name_x_vec()),
                    world.has_prop(o, &name_y_vec()),
                    world.has_prop(o, &name_width_vec()),
                    world.has_prop(o, &name_height_vec()),
                ),
                None => (false, false, false, false),
            };
            let (cx, cy) = read_point(world, co);
            let px = sub_wrap(cx, tlx);
            let py = sub_wrap(cy, tly);
            if has_x && has_y && !has_w && !has_h {
                Value::Bool(crate::bitmap::op_hit_test_point(&world.bitmaps[b], st, px, py))
            } else if has_x && has_y && has_w && has_h {
                let (rw, rh) = match co {
                    Some(o) => (
                        world.get_prop_i32(o, &name_width_vec()),
                        world.get_prop_i32(o, &name_height_vec()),
                    ),
                    None => (0, 0),
                };
                Value::Bool(
                    crate::bitmap::op_hit_test_rectangle(&world.bitmaps[b], st, px, py, rw, rh),
                )
            } else {
                Value::Number(-3)
            }
        },
    }
}

/// Compare the receiver with another bitmap: `0` for equal pixels, a
/// fresh difference bitmap otherwise; sentinels `-1` through `-4` for
/// invalid receivers, compare objects, or mismatched dimensions.
pub fn compare(world: &mut World, this: usize, args: &[Value]) -> (r: Value)
    requires
        old(world).wf(),
    ensures
        final(world).wf(),
        match crate::avm1::spec_bitmap_of(*old(world), this as int) {
            None => r == Value::Number(-1i32) && *final(world) == *old(world),
            Some(tb) => if old(world).bitmaps@[tb as int].disposed {
                r == Value::Number(-1i32) && *final(world) == *old(world)
            } else {
                match bitmap_opt(*old(world), arg_object(args@, 0)) {
                    None => r == Value::Number(-2i32) && *final(world) == *old(world),
                    Some(ob) => if old(world).bitmaps@[ob as int].disposed {
                        r == Value::Number(-2i32) && *final(world) == *old(world)
                    } else if old(world).bitmaps@[tb as int].width != old(world).bitmaps@[ob as int].width {
                        r == Value::Number(-3i32) && *final(world) == *old(world)
                    } else if old(world).bitmaps@[tb as int].height != old(world).bitmaps@[ob as int].height {
                        r == Value::Number(-4i32) && *final(world) == *old(world)
                    } else {
                        ({
                            let a = old(world).bitmaps@[tb as int];
                            let bb = old(world).bitmaps@[ob as int];
                            if forall|j: int, i: int| 0 <= j < a.height && 0 <= i < a.width
                                ==> pix(a, i, j) == pix(bb, i, j) {
                                r == Value::Number(0i32) && *final(world) == *old(world)
                            } else {
                                &&& r == Value::Object(old(world).objects@.len() as usize)
                                &&& final(world).objects@.len() == old(world).objects@.len() + 1
                                &&& (forall|j: int| 0 <= j < old(world).objects@.len()
                                    ==> final(world).objects@[j] == old(world).objects@[j])
                                &&& final(world).objects@[old(world).objects@.len() as int].bitmap
                                    == Some(old(world).bitmaps@.len() as usize)
                                &&& final(world).bitmaps@.len() == old(world).bitmaps@.len() + 1
                                &&& (forall|j: int| 0 <= j < old(world).bitmaps@.len()
                                    ==> final(world).bitmaps@[j] == old(world).bitmaps@[j])
                                &&& ({
                                    let nb = final(world).bitmaps@[old(world).bitmaps@.len() as int];
                                    &&& nb.width == a.width
                                    &&& nb.height == a.height
                                    &&& nb.transparency
                                    &&& (forall|j: int, i: int|
                                        0 <= j < a.height && 0 <= i < a.width ==> pix(nb, i, j)
                                            == crate::bitmap::compare_pixel(
                                            pix(a, i, j),
                                            pix(bb, i, j),
                                        ))
                                })
                                &&& final(world).library@ == old(world).library@
                                &&& final(world).swf_version == old(world).swf_version
                            }
                        })
                    },
                }
            },
        },
{
    let tb = match world.bitmap_of(this) {
        Some(b) => b,
        None => {
            return Value::Number(-1);
        },
    };
    proof {
        assert(world.obj_ok(this as int));
        assert(world.bitmaps@[tb as int].wf());
    }
    if world.bitmaps[tb].disposed {
        return Value::Number(-1);
    }
    let other = arg_obj(args, 0);
    let ob = match other {
        Some(o) => match world.bitmap_of(o) {
            Some(s) => s,
            None => {
                return Value::Number(-2);
            },
        },
        None => {
            return Value::Number(-2);
        },
    };
    proof {
        match other {
            Some(o) => {
                assert(world.obj_ok(o as int));
                assert(world.bitmaps@[ob as int].wf());
            },
            None => {},
        }
    }
    if world.bitmaps[ob].disposed {
        return Value::Number(-2);
    }
    if world.bitmaps[tb].width != world.bitmaps[ob].width {
        return Value::Number(-3);
    }
    if world.bitmaps[tb].height != world.bitmaps[ob].height {
        return Value::Number(-4);
    }
    match crate::bitmap::op_compare(&world.bitmaps[tb], &world.bitmaps[ob]) {
        Some(d) => {
            let o = world.register_bitmap(d);
            Value::Object(o)
        },
        None => Value::Number(0),
    }
}

/// A world where one bitmap was mutated in place keeps every other
/// record and stays well formed when the new bitmap is.
pub proof fn lemma_world_one_bitmap(pre: World, post: World, b: int)
    requires
        pre.wf(),
        0 <= b < pre.bitmaps@.len(),
        post.objects@ == pre.objects@,
        post.library@ == pre.library@,
        post.swf_version == pre.swf_version,
        post.bitmaps@.len() == pre.bitmaps@.len(),
        forall|j: int| 0 <= j < pre.bitmaps@.len() && j != b
            ==> post.bitmaps@[j] == pre.bitmaps@[j],
        post.bitmaps@[b].wf(),
    ensures
        post.wf(),
        one_bitmap_changed(pre, post, b),
{
    assert forall|o: int| 0 <= o < post.objects@.len() implies post.obj_ok(o) by {
        assert(pre.obj_ok(o));
    }
    assert forall|t: int| 0 <= t < post.bitmaps@.len() implies (
    #[trigger] post.bitmaps@[t]).wf() by {
        if t != b {
            assert(pre.bitmaps@[t].wf());
        }
    }
    assert forall|l: int| 0 <= l < post.library@.len() implies (#[trigger] post.library@[l]).wf()
        by {
        assert(pre.library@[l].wf());
    }
}

} // verus!
