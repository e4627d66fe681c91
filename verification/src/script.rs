//! Scripts: units of compiled code that export named definitions and own
//! a lazily materialized global scope object.

use vstd::prelude::*;
use crate::context::{same_config, Context, ObjectData, ObjectKind};
use crate::name::QName;
use crate::property_map::PropertyMap;
use crate::value::Value;

verus! {

/// Handle to a script record inside a context.
#[derive(Clone, Copy, PartialEq, Eq, Structural, Debug)]
pub struct Script(pub usize);

/// A script record: its exported traits and its memoized global scope.
pub struct ScriptData {
    /// The named definitions the script's body installs on its global
    /// scope when that scope is materialized.
    pub traits: PropertyMap<Value>,
    /// The global scope object, present once materialized.
    pub globals: Option<usize>,
}

/// How a call to `Script::globals` changes the context: either the scope
/// was already materialized and nothing changes, or exactly one fresh
/// object is appended whose properties are the script's traits, and the
/// script memoizes its handle.
pub open spec fn globals_rel(pre: Context, post: Context, s: int, g: usize) -> bool {
    match pre.scripts@[s].globals {
        Some(g0) => post == pre && g == g0,
        None => {
            &&& g == pre.objects@.len()
            &&& post.objects@.len() == pre.objects@.len() + 1
            &&& (forall|j: int| 0 <= j < pre.objects@.len()
                ==> post.objects@[j] == pre.objects@[j])
            &&& post.objects@[g as int].props.entries@ == pre.scripts@[s].traits.entries@
            &&& post.objects@[g as int].kind is Scope
            &&& post.scripts@.len() == pre.scripts@.len()
            &&& (forall|j: int| 0 <= j < pre.scripts@.len() && j != s
                ==> post.scripts@[j] == pre.scripts@[j])
            &&& post.scripts@[s].traits == pre.scripts@[s].traits
            &&& post.scripts@[s].globals == Some(g)
            &&& post.domains@ == pre.domains@
            &&& post.classes@ == pre.classes@
            &&& post.bytearrays@ == pre.bytearrays@
            &&& post.strings@ == pre.strings@
            &&& post.namespaces@ == pre.namespaces@
            &&& same_config(pre, post)
        },
    }
}

/// The value reading `q` off script `s`'s global scope yields, whether or
/// not that scope is materialized yet: the memoized object's property, or
/// the script's own trait.
pub open spec fn spec_defined_value(ctx: Context, s: int, q: QName) -> Value {
    match ctx.scripts@[s].globals {
        Some(g) => crate::context::object_prop(ctx, g as int, q),
        None => crate::context::prop_or_undefined(ctx.scripts@[s].traits.entries@, q),
    }
}

impl Script {
    /// Create a script with the given exported traits; its global scope is
    /// not yet materialized.
    pub fn new(ctx: &mut Context, traits: PropertyMap<Value>) -> (r: Script)
        requires
            old(ctx).wf(),
        ensures
            final(ctx).wf(),
            r.0 == old(ctx).scripts@.len(),
            final(ctx).scripts@ == old(ctx).scripts@.push(ScriptData { traits, globals: None }),
            final(ctx).domains@ == old(ctx).domains@,
            final(ctx).objects@ == old(ctx).objects@,
            final(ctx).classes@ == old(ctx).classes@,
            final(ctx).bytearrays@ == old(ctx).bytearrays@,
            final(ctx).strings@ == old(ctx).strings@,
            final(ctx).namespaces@ == old(ctx).namespaces@,
            same_config(*old(ctx), *final(ctx)),
    {
        let r = Script(ctx.scripts.len());
        ctx.scripts.push(ScriptData { traits, globals: None });
        proof {
            assert forall|s: int| 0 <= s < ctx.scripts@.len() implies ctx.script_ok(s) by {
                if s < old(ctx).scripts@.len() {
                    assert(old(ctx).script_ok(s));
                }
            }
            assert forall|d: int| 0 <= d < ctx.domains@.len() implies ctx.domain_ok(d) by {
                assert(old(ctx).domain_ok(d));
                crate::context::lemma_scripts_in_range_mono(
                    ctx.domains@[d].defs.entries@,
                    old(ctx).scripts@.len() as int,
                    ctx.scripts@.len() as int,
                );
            }
        }
        r
    }

    /// The script's global scope object, materialized on first access and
    /// memoized: a later call returns the same object.
    pub fn globals(self, ctx: &mut Context) -> (r: usize)
        requires
            old(ctx).wf(),
            self.0 < old(ctx).scripts@.len(),
        ensures
            final(ctx).wf(),
            globals_rel(*old(ctx), *final(ctx), self.0 as int, r),
            r < final(ctx).objects@.len(),
    {
        let s = self.0;
        match ctx.scripts[s].globals {
            Some(g) => {
                proof {
                    assert(ctx.script_ok(s as int));
                }
                g
            },
            None => {
                let n = ctx.scripts[s].traits.entries.len();
                let mut entries: Vec<(QName, Value)> = Vec::new();
                let mut i: usize = 0;
                while i < n
                    invariant
                        *ctx == *old(ctx),
                        s < ctx.scripts@.len(),
                        n == ctx.scripts@[s as int].traits.entries@.len(),
                        i <= n,
                        entries@ == ctx.scripts@[s as int].traits.entries@.take(i as int),
                    decreases n - i,
                {
                    entries.push(ctx.scripts[s].traits.entries[i]);
                    proof {
                        assert(entries@ =~= ctx.scripts@[s as int].traits.entries@.take(
                            i as int + 1));
                    }
                    i += 1;
                }
                proof {
                    assert(entries@ =~= ctx.scripts@[s as int].traits.entries@);
                }
                let g = ctx.alloc_object(PropertyMap { entries }, ObjectKind::Scope);
                let sd = &mut ctx.scripts[s];
                sd.globals = Some(g);
                proof {
                    assert forall|j: int| 0 <= j < ctx.scripts@.len() implies ctx.script_ok(j) by {
                        if j != s {
                            assert(old(ctx).script_ok(j));
                        }
                    }
                    assert forall|d: int| 0 <= d < ctx.domains@.len() implies ctx.domain_ok(d) by {
                        assert(old(ctx).domain_ok(d));
                    }
                }
                g
            },
        }
    }
}

} // verus!
