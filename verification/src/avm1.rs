//! The dynamically-typed host-object world the BitmapData surface lives
//! in: property-bag objects, the bitmap records behind them, a library of
//! loadable bitmap symbols, and the value coercions the calling
//! convention performs on raw argument lists.

use vstd::prelude::*;
use crate::bitmap::BitmapData;

verus! {

/// A dynamically typed value.
#[derive(Debug, PartialEq)]
pub enum Value {
    Undefined,
    Null,
    Bool(bool),
    Number(i32),
    String(Vec<u8>),
    Object(usize),
}

/// Coercion of a value to a signed integer: numbers pass through, `true`
/// is one, everything else is zero.
pub open spec fn spec_to_i32(v: Value) -> i32 {
    match v {
        Value::Number(n) => n,
        Value::Bool(b) => if b {
            1
        } else {
            0
        },
        _ => 0,
    }
}

/// Coercion to an unsigned integer: the signed coercion reinterpreted.
pub open spec fn spec_to_u32(v: Value) -> u32 {
    spec_to_i32(v) as u32
}

/// Truthiness: `false`, zero, the empty string, `undefined` and `null`
/// are false; objects and everything else true.
pub open spec fn spec_truthy(v: Value) -> bool {
    match v {
        Value::Bool(b) => b,
        Value::Number(n) => n != 0,
        Value::String(s) => s@.len() > 0,
        Value::Object(_) => true,
        _ => false,
    }
}

/// The object handle a value coerces to, if it is an object.
pub open spec fn spec_to_object(v: Value) -> Option<usize> {
    match v {
        Value::Object(o) => Some(o),
        _ => None,
    }
}

impl Value {
    /// Coerce to a signed integer.
    pub fn coerce_to_i32(&self) -> (r: i32)
        ensures
            r == spec_to_i32(*self),
    {
        match *self {
            Value::Number(n) => n,
            Value::Bool(b) => if b {
                1
            } else {
                0
            },
            _ => 0,
        }
    }

    /// Coerce to an unsigned integer.
    pub fn coerce_to_u32(&self) -> (r: u32)
        ensures
            r == spec_to_u32(*self),
    {
        self.coerce_to_i32() as u32
    }

    /// Truthiness of the value.
    pub fn as_bool(&self) -> (r: bool)
        ensures
            r == spec_truthy(*self),
    {
        match self {
            Value::Bool(b) => *b,
            Value::Number(n) => *n != 0,
            Value::String(s) => s.len() > 0,
            Value::Object(_) => true,
            _ => false,
        }
    }

    /// The object handle, if this value is an object.
    pub fn as_object(&self) -> (r: Option<usize>)
        ensures
            r == spec_to_object(*self),
    {
        match *self {
            Value::Object(o) => Some(o),
            _ => None,
        }
    }
}

/// The per-channel parameters of a color transform host object:
/// multipliers in 1/256 fixed-point units, additive offsets in channel
/// units.
#[derive(Clone, Copy, PartialEq, Eq, Structural, Debug)]
pub struct ColorTransformData {
    pub red_mult: i32,
    pub green_mult: i32,
    pub blue_mult: i32,
    pub alpha_mult: i32,
    pub red_off: i32,
    pub green_off: i32,
    pub blue_off: i32,
    pub alpha_off: i32,
}

/// A host object: a named property bag, integer-indexed elements, for
/// BitmapData objects a handle to the pixel record, and for color
/// transform objects their channel parameters.
pub struct ObjectData {
    pub props: Vec<(Vec<u8>, Value)>,
    pub elements: Vec<Value>,
    pub bitmap: Option<usize>,
    pub color_transform: Option<ColorTransformData>,
}

/// A bitmap symbol exported by a loaded movie's library.
pub struct LibrarySymbol {
    pub name: Vec<u8>,
    pub width: u32,
    pub height: u32,
    pub rows: Vec<Vec<u32>>,
}

/// The host-object world.
pub struct World {
    pub objects: Vec<ObjectData>,
    pub bitmaps: Vec<BitmapData>,
    pub library: Vec<LibrarySymbol>,
    pub swf_version: u8,
}

/// Index of the first property with this name, or -1.
pub open spec fn find_prop(props: Seq<(Vec<u8>, Value)>, name: Seq<u8>) -> int
    decreases props.len(),
{
    if props.len() == 0 {
        -1
    } else if props[0].0@ == name {
        0
    } else {
        let r = find_prop(props.drop_first(), name);
        if r < 0 {
            -1
        } else {
            r + 1
        }
    }
}

/// `find_prop` returns -1 exactly when no property matches, and
/// otherwise the least index of a matching one.
pub proof fn lemma_find_prop(props: Seq<(Vec<u8>, Value)>, name: Seq<u8>)
    ensures
        find_prop(props, name) == -1 ==> (forall|j: int|
            0 <= j < props.len() ==> props[j].0@ != name),
        find_prop(props, name) != -1 ==> 0 <= find_prop(props, name) < props.len()
            && props[find_prop(props, name)].0@ == name
            && (forall|j: int| 0 <= j < find_prop(props, name) ==> props[j].0@ != name),
    decreases props.len(),
{
    if props.len() == 0 {
    } else if props[0].0@ == name {
    } else {
        let t = props.drop_first();
        lemma_find_prop(t, name);
        assert forall|j: int| 1 <= j < props.len() implies props[j] == t[j - 1] by {}
        if find_prop(t, name) == -1 {
            assert forall|j: int| 0 <= j < props.len() implies props[j].0@ != name by {
                if j >= 1 {
                    assert(props[j] == t[j - 1]);
                }
            }
        } else {
            let i = find_prop(t, name);
            assert(props[i + 1] == t[i]);
            assert forall|j: int| 0 <= j < i + 1 implies props[j].0@ != name by {
                if j >= 1 {
                    assert(props[j] == t[j - 1]);
                }
            }
        }
    }
}

/// The coerced integer value of property `name` on object `o`: zero when
/// the handle is invalid, the property missing, or its value non-numeric.
pub open spec fn spec_prop_i32(w: World, o: int, name: Seq<u8>) -> i32 {
    if 0 <= o < w.objects@.len() {
        let props = w.objects@[o].props@;
        let i = find_prop(props, name);
        if i < 0 {
            0
        } else {
            spec_to_i32(props[i].1)
        }
    } else {
        0
    }
}

/// Whether property `name` is stored on object `o`.
pub open spec fn spec_has_prop(w: World, o: int, name: Seq<u8>) -> bool {
    0 <= o < w.objects@.len() && find_prop(w.objects@[o].props@, name) >= 0
}

/// The color transform parameters behind `o`, when it carries them.
pub open spec fn spec_color_transform_of(w: World, o: int) -> Option<ColorTransformData> {
    if 0 <= o < w.objects@.len() {
        w.objects@[o].color_transform
    } else {
        None
    }
}

/// The bitmap record behind `o`, when `o` is a valid BitmapData object.
pub open spec fn spec_bitmap_of(w: World, o: int) -> Option<usize> {
    if 0 <= o < w.objects@.len() {
        w.objects@[o].bitmap
    } else {
        None
    }
}

impl World {
    /// A record is well formed when its bitmap handle is in range.
    pub open spec fn obj_ok(self, o: int) -> bool {
        self.objects@[o].bitmap matches Some(b) ==> b < self.bitmaps@.len()
    }

    /// World invariant: object records point into the bitmap arena and
    /// every bitmap record and library symbol has consistent dimensions.
    pub open spec fn wf(self) -> bool {
        &&& (forall|o: int| 0 <= o < self.objects@.len() ==> #[trigger] self.obj_ok(o))
        &&& (forall|b: int| 0 <= b < self.bitmaps@.len()
            ==> (#[trigger] self.bitmaps@[b]).wf())
        &&& (forall|l: int| 0 <= l < self.library@.len()
            ==> (#[trigger] self.library@[l]).wf())
    }

    /// An empty world.
    pub fn new(swf_version: u8) -> (r: World)
        ensures
            r.wf(),
            r.objects@.len() == 0,
            r.bitmaps@.len() == 0,
            r.library@.len() == 0,
            r.swf_version == swf_version,
    {
        World { objects: Vec::new(), bitmaps: Vec::new(), library: Vec::new(), swf_version }
    }

    /// The coerced integer value of a property, `0` when absent.
    pub fn get_prop_i32(&self, o: usize, name: &Vec<u8>) -> (r: i32)
        ensures
            r == spec_prop_i32(*self, o as int, name@),
    {
        if o >= self.objects.len() {
            return 0;
        }
        let props = &self.objects[o].props;
        let mut i: usize = 0;
        while i < props.len()
            invariant
                o < self.objects@.len(),
                i <= props@.len(),
                props@ == self.objects@[o as int].props@,
                forall|j: int| 0 <= j < i ==> props@[j].0@ != name@,
            decreases props@.len() - i,
        {
            if crate::util::bytes_eq(&props[i].0, name) {
                proof {
                    lemma_find_prop(props@, name@);
                }
                return props[i].1.coerce_to_i32();
            }
            i += 1;
        }
        proof {
            lemma_find_prop(props@, name@);
        }
        0
    }

    /// Whether a property is stored on an object.
    pub fn has_prop(&self, o: usize, name: &Vec<u8>) -> (r: bool)
        ensures
            r == spec_has_prop(*self, o as int, name@),
    {
        if o >= self.objects.len() {
            return false;
        }
        let props = &self.objects[o].props;
        let mut i: usize = 0;
        while i < props.len()
            invariant
                o < self.objects@.len(),
                i <= props@.len(),
                props@ == self.objects@[o as int].props@,
                forall|j: int| 0 <= j < i ==> props@[j].0@ != name@,
            decreases props@.len() - i,
        {
            if crate::util::bytes_eq(&props[i].0, name) {
                proof {
                    lemma_find_prop(props@, name@);
                }
                return true;
            }
            i += 1;
        }
        proof {
            lemma_find_prop(props@, name@);
        }
        false
    }

    /// The bitmap record behind a BitmapData object, if `o` is one.
    pub fn bitmap_of(&self, o: usize) -> (r: Option<usize>)
        ensures
            r == spec_bitmap_of(*self, o as int),
    {
        if o >= self.objects.len() {
            return None;
        }
        self.objects[o].bitmap
    }
}

/// Index of the first library symbol with this export name, or -1.
pub open spec fn find_symbol(lib: Seq<LibrarySymbol>, name: Seq<u8>) -> int
    decreases lib.len(),
{
    if lib.len() == 0 {
        -1
    } else if lib[0].name@ == name {
        0
    } else {
        let r = find_symbol(lib.drop_first(), name);
        if r < 0 {
            -1
        } else {
            r + 1
        }
    }
}

/// `find_symbol` returns -1 exactly when no symbol matches, and otherwise
/// the least index of a matching one.
pub proof fn lemma_find_symbol(lib: Seq<LibrarySymbol>, name: Seq<u8>)
    ensures
        find_symbol(lib, name) == -1 ==> (forall|j: int|
            0 <= j < lib.len() ==> lib[j].name@ != name),
        find_symbol(lib, name) != -1 ==> 0 <= find_symbol(lib, name) < lib.len()
            && lib[find_symbol(lib, name)].name@ == name
            && (forall|j: int| 0 <= j < find_symbol(lib, name) ==> lib[j].name@ != name),
    decreases lib.len(),
{
    if lib.len() == 0 {
    } else if lib[0].name@ == name {
    } else {
        let t = lib.drop_first();
        lemma_find_symbol(t, name);
        assert forall|j: int| 1 <= j < lib.len() implies lib[j] == t[j - 1] by {}
        if find_symbol(t, name) == -1 {
            assert forall|j: int| 0 <= j < lib.len() implies lib[j].name@ != name by {
                if j >= 1 {
                    assert(lib[j] == t[j - 1]);
                }
            }
        } else {
            let i = find_symbol(t, name);
            assert(lib[i + 1] == t[i]);
            assert forall|j: int| 0 <= j < i + 1 implies lib[j].name@ != name by {
                if j >= 1 {
                    assert(lib[j] == t[j - 1]);
                }
            }
        }
    }
}

/// The coerced unsigned value of integer-indexed element `i` of object
/// `o`, zero when the handle or index is out of range.
pub open spec fn spec_element_u32(w: World, o: int, i: int) -> u32 {
    if 0 <= o < w.objects@.len() && 0 <= i < w.objects@[o].elements@.len() {
        spec_to_u32(w.objects@[o].elements@[i])
    } else {
        0
    }
}

impl World {
    /// The coerced unsigned value of an integer-indexed element.
    pub fn element_u32(&self, o: usize, i: usize) -> (r: u32)
        ensures
            r == spec_element_u32(*self, o as int, i as int),
    {
        if o < self.objects.len() && i < self.objects[o].elements.len() {
            self.objects[o].elements[i].coerce_to_u32()
        } else {
            0
        }
    }

    /// Create an empty BitmapData host object backed by a fresh
    /// zero-sized bitmap record.
    pub fn empty_bitmap_object(&mut self) -> (r: usize)
        requires
            old(self).wf(),
        ensures
            final(self).wf(),
            r == old(self).objects@.len(),
            final(self).objects@.len() == old(self).objects@.len() + 1,
            forall|j: int| 0 <= j < old(self).objects@.len()
                ==> final(self).objects@[j] == old(self).objects@[j],
            final(self).objects@[r as int].props@.len() == 0,
            final(self).objects@[r as int].elements@.len() == 0,
            final(self).objects@[r as int].bitmap == Some(old(self).bitmaps@.len() as usize),
            final(self).bitmaps@.len() == old(self).bitmaps@.len() + 1,
            forall|j: int| 0 <= j < old(self).bitmaps@.len()
                ==> final(self).bitmaps@[j] == old(self).bitmaps@[j],
            final(self).bitmaps@[old(self).bitmaps@.len() as int].width == 0,
            final(self).bitmaps@[old(self).bitmaps@.len() as int].height == 0,
            final(self).bitmaps@[old(self).bitmaps@.len() as int].transparency,
            !final(self).bitmaps@[old(self).bitmaps@.len() as int].disposed,
            final(self).library@ == old(self).library@,
            final(self).swf_version == old(self).swf_version,
    {
        let b = self.bitmaps.len();
        self.bitmaps.push(
            BitmapData {
                width: 0,
                height: 0,
                transparency: true,
                disposed: false,
                rows: Vec::new(),
            },
        );
        let r = self.objects.len();
        self.objects.push(
            ObjectData {
                props: Vec::new(),
                elements: Vec::new(),
                bitmap: Some(b),
                color_transform: None,
            },
        );
        proof {
            assert forall|o: int| 0 <= o < self.objects@.len() implies self.obj_ok(o) by {
                if o < old(self).objects@.len() {
                    assert(old(self).obj_ok(o));
                }
            }
            assert forall|t: int| 0 <= t < self.bitmaps@.len() implies (
            #[trigger] self.bitmaps@[t]).wf() by {
                if t < old(self).bitmaps@.len() {
                    assert(old(self).bitmaps@[t].wf());
                }
            }
        }
        r
    }

    /// Register a bitmap record as a fresh BitmapData host object.
    pub fn register_bitmap(&mut self, bm: BitmapData) -> (r: usize)
        requires
            old(self).wf(),
            bm.wf(),
        ensures
            final(self).wf(),
            r == old(self).objects@.len(),
            final(self).objects@.len() == old(self).objects@.len() + 1,
            forall|j: int| 0 <= j < old(self).objects@.len()
                ==> final(self).objects@[j] == old(self).objects@[j],
            final(self).objects@[r as int].props@.len() == 0,
            final(self).objects@[r as int].elements@.len() == 0,
            final(self).objects@[r as int].bitmap == Some(old(self).bitmaps@.len() as usize),
            final(self).bitmaps@ == old(self).bitmaps@.push(bm),
            final(self).library@ == old(self).library@,
            final(self).swf_version == old(self).swf_version,
    {
        let b = self.bitmaps.len();
        self.bitmaps.push(bm);
        let r = self.objects.len();
        self.objects.push(
            ObjectData {
                props: Vec::new(),
                elements: Vec::new(),
                bitmap: Some(b),
                color_transform: None,
            },
        );
        proof {
            assert forall|o: int| 0 <= o < self.objects@.len() implies self.obj_ok(o) by {
                if o < old(self).objects@.len() {
                    assert(old(self).obj_ok(o));
                }
            }
            assert forall|t: int| 0 <= t < self.bitmaps@.len() implies (
            #[trigger] self.bitmaps@[t]).wf() by {
                if t < old(self).bitmaps@.len() {
                    assert(old(self).bitmaps@[t].wf());
                }
            }
        }
        r
    }

    /// Create a plain host object with the given properties and elements.
    pub fn new_object(&mut self, props: Vec<(Vec<u8>, Value)>, elements: Vec<Value>) -> (r: usize)
        requires
            old(self).wf(),
        ensures
            final(self).wf(),
            r == old(self).objects@.len(),
            final(self).objects@.len() == old(self).objects@.len() + 1,
            forall|j: int| 0 <= j < old(self).objects@.len()
                ==> final(self).objects@[j] == old(self).objects@[j],
            final(self).objects@[r as int].props == props,
            final(self).objects@[r as int].elements == elements,
            final(self).objects@[r as int].bitmap is None,
            final(self).bitmaps@ == old(self).bitmaps@,
            final(self).library@ == old(self).library@,
            final(self).swf_version == old(self).swf_version,
    {
        let r = self.objects.len();
        self.objects.push(ObjectData { props, elements, bitmap: None, color_transform: None });
        proof {
            assert forall|o: int| 0 <= o < self.objects@.len() implies self.obj_ok(o) by {
                if o < old(self).objects@.len() {
                    assert(old(self).obj_ok(o));
                }
            }
            assert forall|t: int| 0 <= t < self.bitmaps@.len() implies (
            #[trigger] self.bitmaps@[t]).wf() by {
                assert(old(self).bitmaps@[t].wf());
            }
        }
        r
    }

    /// Create a color transform host object.
    pub fn new_color_transform_object(&mut self, ct: ColorTransformData) -> (r: usize)
        requires
            old(self).wf(),
        ensures
            final(self).wf(),
            r == old(self).objects@.len(),
            final(self).objects@.len() == old(self).objects@.len() + 1,
            forall|j: int| 0 <= j < old(self).objects@.len()
                ==> final(self).objects@[j] == old(self).objects@[j],
            final(self).objects@[r as int].color_transform == Some(ct),
            final(self).objects@[r as int].bitmap is None,
            final(self).bitmaps@ == old(self).bitmaps@,
            final(self).library@ == old(self).library@,
            final(self).swf_version == old(self).swf_version,
    {
        let r = self.objects.len();
        self.objects.push(
            ObjectData {
                props: Vec::new(),
                elements: Vec::new(),
                bitmap: None,
                color_transform: Some(ct),
            },
        );
        proof {
            assert forall|o: int| 0 <= o < self.objects@.len() implies self.obj_ok(o) by {
                if o < old(self).objects@.len() {
                    assert(old(self).obj_ok(o));
                }
            }
            assert forall|t: int| 0 <= t < self.bitmaps@.len() implies (
            #[trigger] self.bitmaps@[t]).wf() by {
                assert(old(self).bitmaps@[t].wf());
            }
        }
        r
    }

    /// The color transform parameters of an object, if it carries them.
    pub fn color_transform_of(&self, o: usize) -> (r: Option<ColorTransformData>)
        ensures
            r == spec_color_transform_of(*self, o as int),
    {
        if o < self.objects.len() {
            self.objects[o].color_transform
        } else {
            None
        }
    }

    /// Register a bitmap symbol in the movie library.
    pub fn add_library_symbol(&mut self, sym: LibrarySymbol)
        requires
            old(self).wf(),
            sym.wf(),
        ensures
            final(self).wf(),
            final(self).library@ == old(self).library@.push(sym),
            final(self).objects@ == old(self).objects@,
            final(self).bitmaps@ == old(self).bitmaps@,
            final(self).swf_version == old(self).swf_version,
    {
        self.library.push(sym);
        proof {
            assert forall|o: int| 0 <= o < self.objects@.len() implies self.obj_ok(o) by {
                assert(old(self).obj_ok(o));
            }
            assert forall|t: int| 0 <= t < self.bitmaps@.len() implies (
            #[trigger] self.bitmaps@[t]).wf() by {
                assert(old(self).bitmaps@[t].wf());
            }
            assert forall|l: int| 0 <= l < self.library@.len() implies (
            #[trigger] self.library@[l]).wf() by {
                if l < old(self).library@.len() {
                    assert(old(self).library@[l].wf());
                }
            }
        }
    }
}

impl LibrarySymbol {
    /// Dimensions agree with the stored pixel grid.
    pub open spec fn wf(self) -> bool {
        &&& self.rows@.len() == self.height
        &&& (forall|j: int| 0 <= j < self.rows@.len()
            ==> (#[trigger] self.rows@[j])@.len() == self.width)
        &&& self.width <= 8191
        &&& self.height <= 8191
    }
}

} // verus!
