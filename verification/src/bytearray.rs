//! Flat, resizable byte buffers ("domain memory").

use vstd::prelude::*;
use crate::context::{same_config, ByteArrayData, Context};

verus! {

/// The bytes of a buffer of length `len` after `set_length`: a prefix of
/// the old contents, zero-padded when grown.
pub open spec fn resized_bytes(old_bytes: Seq<u8>, len: int) -> Seq<u8> {
    if len <= old_bytes.len() {
        old_bytes.subrange(0, len)
    } else {
        old_bytes + Seq::new((len - old_bytes.len()) as nat, |i: int| 0u8)
    }
}

/// A fresh all-zero byte vector of the given length.
pub fn zero_bytes(n: usize) -> (r: Vec<u8>)
    ensures
        r@.len() == n,
        forall|i: int| 0 <= i < n ==> r@[i] == 0u8,
{
    let mut r: Vec<u8> = Vec::new();
    let mut i: usize = 0;
    while i < n
        invariant
            i <= n,
            r@.len() == i,
            forall|j: int| 0 <= j < i ==> r@[j] == 0u8,
        decreases n - i,
    {
        r.push(0u8);
        i += 1;
    }
    r
}

impl crate::context::ByteArrayObject {
    /// Allocate a fresh byte array of the given length, zero-filled.
    pub fn with_length(ctx: &mut Context, len: usize) -> (r: crate::context::ByteArrayObject)
        requires
            old(ctx).wf(),
        ensures
            final(ctx).wf(),
            r.0 == old(ctx).bytearrays@.len(),
            final(ctx).bytearrays@.len() == old(ctx).bytearrays@.len() + 1,
            forall|j: int| 0 <= j < old(ctx).bytearrays@.len()
                ==> final(ctx).bytearrays@[j] == old(ctx).bytearrays@[j],
            final(ctx).bytearrays@[r.0 as int].bytes@.len() == len,
            forall|i: int| 0 <= i < len ==> final(ctx).bytearrays@[r.0 as int].bytes@[i] == 0u8,
            final(ctx).domains@ == old(ctx).domains@,
            final(ctx).scripts@ == old(ctx).scripts@,
            final(ctx).objects@ == old(ctx).objects@,
            final(ctx).classes@ == old(ctx).classes@,
            final(ctx).strings@ == old(ctx).strings@,
            final(ctx).namespaces@ == old(ctx).namespaces@,
            same_config(*old(ctx), *final(ctx)),
    {
        let r = crate::context::ByteArrayObject(ctx.bytearrays.len());
        let bytes = zero_bytes(len);
        ctx.bytearrays.push(ByteArrayData { bytes });
        proof {
            assert forall|d: int| 0 <= d < ctx.domains@.len() implies ctx.domain_ok(d) by {
                assert(old(ctx).domain_ok(d));
            }
            assert forall|s: int| 0 <= s < ctx.scripts@.len() implies ctx.script_ok(s) by {
                assert(old(ctx).script_ok(s));
            }
        }
        r
    }

    /// The current length of the buffer.
    pub fn length(self, ctx: &Context) -> (r: usize)
        requires
            self.0 < ctx.bytearrays@.len(),
        ensures
            r == ctx.bytearrays@[self.0 as int].bytes@.len(),
    {
        ctx.bytearrays[self.0].bytes.len()
    }

    /// Resize the buffer: truncates, or grows with zero padding.
    pub fn set_length(self, ctx: &mut Context, len: usize)
        requires
            old(ctx).wf(),
            self.0 < old(ctx).bytearrays@.len(),
        ensures
            final(ctx).wf(),
            final(ctx).bytearrays@.len() == old(ctx).bytearrays@.len(),
            forall|j: int| 0 <= j < old(ctx).bytearrays@.len() && j != self.0
                ==> final(ctx).bytearrays@[j] == old(ctx).bytearrays@[j],
            final(ctx).bytearrays@[self.0 as int].bytes@ == resized_bytes(
                old(ctx).bytearrays@[self.0 as int].bytes@,
                len as int,
            ),
            final(ctx).domains@ == old(ctx).domains@,
            final(ctx).scripts@ == old(ctx).scripts@,
            final(ctx).objects@ == old(ctx).objects@,
            final(ctx).classes@ == old(ctx).classes@,
            final(ctx).strings@ == old(ctx).strings@,
            final(ctx).namespaces@ == old(ctx).namespaces@,
            same_config(*old(ctx), *final(ctx)),
    {
        let cur_len = ctx.bytearrays[self.0].bytes.len();
        if len <= cur_len {
            let ba = &mut ctx.bytearrays[self.0];
            ba.bytes.truncate(len);
        } else {
            let mut add = zero_bytes(len - cur_len);
            let ba = &mut ctx.bytearrays[self.0];
            ba.bytes.append(&mut add);
        }
        proof {
            assert(ctx.bytearrays@[self.0 as int].bytes@ =~= resized_bytes(
                old(ctx).bytearrays@[self.0 as int].bytes@,
                len as int,
            ));
        }
        proof {
            assert forall|d: int| 0 <= d < ctx.domains@.len() implies ctx.domain_ok(d) by {
                assert(old(ctx).domain_ok(d));
            }
            assert forall|s: int| 0 <= s < ctx.scripts@.len() implies ctx.script_ok(s) by {
                assert(old(ctx).script_ok(s));
            }
        }
    }
}

} // verus!
