//! Application domains: nodes in a single-parent hierarchy holding
//! exported script definitions and classes, an optional parent, and an
//! optional flat memory buffer.
//!
//! Resolution searches the local maps first and then delegates to the
//! parent, so a domain's own definitions always shadow an ancestor's.
//! Definition export is first-writer-wins: exporting a name that already
//! resolves anywhere in the chain is a silent no-op.  Class export is
//! last-writer-wins.

use vstd::prelude::*;
use crate::context::{
    same_config, ByteArrayObject, Context, ObjectKind,
};
use crate::name::{Multiname, QName};
use crate::property_map::{
    find_key, find_mn, lemma_find_key, lemma_find_mn, PropertyMap,
};
use crate::script::{globals_rel, spec_defined_value, Script};
use crate::value::Value;

verus! {

/// Handle to a domain record inside a context.  Two handles are equal
/// exactly when they refer to the same underlying record.
#[derive(Clone, Copy, PartialEq, Eq, Structural, Debug)]
pub struct Domain(pub usize);

/// A domain record: exported definitions, exported classes, the optional
/// parent, and the optional domain memory buffer.
pub struct DomainData {
    /// All exported definitions and the script that exported them.
    pub defs: PropertyMap<Script>,
    /// All classes defined in this domain, for early cross-referencing.
    pub classes: PropertyMap<usize>,
    /// The parent domain.
    pub parent: Option<Domain>,
    /// The byte buffer backing raw-memory instructions.  Optional only to
    /// allow the global domain to exist before the buffer type does; every
    /// domain in actual use has one.
    pub domain_memory: Option<ByteArrayObject>,
}

/// Legacy numeric code of the undefined-variable diagnostic.
pub const UNDEFINED_VARIABLE_ERROR_CODE: u32 = 1065;

/// A recoverable resolution error.
#[derive(Clone, Copy, PartialEq, Eq, Structural, Debug)]
pub enum Error {
    /// A name resolved nowhere in the domain chain; carries the
    /// unqualified local name.
    UndefinedReference { local: usize },
    /// A multiname without a local name was asked to resolve.
    UninitiatedMultiname,
    /// The base of a parameterized-type lookup was not an object capable
    /// of specialization.
    GenericTypeApplication,
}

/// Whether `name` is defined in domain `d` or any of its ancestors.
pub open spec fn spec_has_definition(ctx: Context, d: int, name: QName) -> bool
    decreases d,
{
    if find_key(ctx.domains@[d].defs.entries@, name) >= 0 {
        true
    } else {
        match ctx.domains@[d].parent {
            Some(p) => if p.0 < d {
                spec_has_definition(ctx, p.0 as int, name)
            } else {
                false
            },
            None => false,
        }
    }
}

/// The qualified name and script a multiname resolves to in domain `d`:
/// the first local entry whose namespace lies in the candidate set, else
/// the parent's resolution; `None` past the root.
pub open spec fn spec_get_defining_script(
    ctx: Context,
    d: int,
    local: Option<usize>,
    ns_set: Seq<usize>,
) -> Option<(QName, Script)>
    decreases d,
{
    let entries = ctx.domains@[d].defs.entries@;
    if local is Some && find_mn(entries, local.unwrap(), ns_set) >= 0 {
        let i = find_mn(entries, local.unwrap(), ns_set);
        Some((QName { ns: entries[i].0.ns, local: local.unwrap() }, entries[i].1))
    } else {
        match ctx.domains@[d].parent {
            Some(p) => if p.0 < d {
                spec_get_defining_script(ctx, p.0 as int, local, ns_set)
            } else {
                None
            },
            None => None,
        }
    }
}

/// The class a multiname resolves to in domain `d` or its ancestors.
pub open spec fn spec_get_class(
    ctx: Context,
    d: int,
    local: Option<usize>,
    ns_set: Seq<usize>,
) -> Option<usize>
    decreases d,
{
    let entries = ctx.domains@[d].classes.entries@;
    if local is Some && find_mn(entries, local.unwrap(), ns_set) >= 0 {
        Some(entries[find_mn(entries, local.unwrap(), ns_set)].1)
    } else {
        match ctx.domains@[d].parent {
            Some(p) => if p.0 < d {
                spec_get_class(ctx, p.0 as int, local, ns_set)
            } else {
                None
            },
            None => None,
        }
    }
}

/// What retrieving `name` from domain `d` yields: the defining script's
/// global value, or the undefined-reference error carrying the local name.
pub open spec fn gdv_result(ctx: Context, d: int, name: QName) -> Result<Value, Error> {
    match spec_get_defining_script(ctx, d, Some(name.local), seq![name.ns]) {
        Some((q, s)) => Ok(spec_defined_value(ctx, s.0 as int, q)),
        None => Err(Error::UndefinedReference { local: name.local }),
    }
}

/// How retrieving a value changes the context: nothing on failure; on
/// success at most the defining script's global scope is materialized.
pub open spec fn gdv_ctx_rel(pre: Context, post: Context, d: int, name: QName) -> bool {
    match spec_get_defining_script(pre, d, Some(name.local), seq![name.ns]) {
        None => post == pre,
        Some((q, s)) => exists|g: usize| globals_rel(pre, post, s.0 as int, g),
    }
}

/// Resolution only looks at the domain records: contexts with equal
/// domain arenas resolve every multiname alike.
pub proof fn lemma_resolution_congruent(
    a: Context,
    b: Context,
    d: int,
    local: Option<usize>,
    ns_set: Seq<usize>,
)
    requires
        b.domains@ == a.domains@,
    ensures
        spec_get_defining_script(b, d, local, ns_set) == spec_get_defining_script(
            a,
            d,
            local,
            ns_set,
        ),
        spec_get_class(b, d, local, ns_set) == spec_get_class(a, d, local, ns_set),
    decreases d,
{
    if d >= 0 {
        match a.domains@[d].parent {
            Some(p) => {
                if p.0 < d {
                    lemma_resolution_congruent(a, b, p.0 as int, local, ns_set);
                }
            },
            None => {},
        }
    }
}

/// A resolved script handle lies inside the script arena.
pub proof fn lemma_resolved_in_range(ctx: Context, d: int, local: Option<usize>, ns_set: Seq<usize>)
    requires
        ctx.wf(),
        0 <= d < ctx.domains@.len(),
    ensures
        spec_get_defining_script(ctx, d, local, ns_set) matches Some(v)
            ==> v.1.0 < ctx.scripts@.len(),
    decreases d,
{
    assert(ctx.domain_ok(d));
    let entries = ctx.domains@[d].defs.entries@;
    match local {
        Some(l) => {
            lemma_find_mn(entries, l, ns_set);
        },
        None => {},
    }
    match ctx.domains@[d].parent {
        Some(p) => {
            if p.0 < d {
                lemma_resolved_in_range(ctx, p.0 as int, local, ns_set);
            }
        },
        None => {},
    }
}

/// Materializing one script's global scope changes no retrieved value.
pub proof fn lemma_defined_value_stable(pre: Context, post: Context, sm: int, g: usize, s: int, q: QName)
    requires
        pre.wf(),
        0 <= sm < pre.scripts@.len(),
        globals_rel(pre, post, sm, g),
        0 <= s < pre.scripts@.len(),
    ensures
        spec_defined_value(post, s, q) == spec_defined_value(pre, s, q),
{
    match pre.scripts@[sm].globals {
        Some(_) => {},
        None => {
            if s == sm {
                assert(g == pre.objects@.len());
                assert(post.scripts@[s].globals == Some(g));
                assert(post.objects@[g as int].props.entries@ == pre.scripts@[s].traits.entries@);
                assert(spec_defined_value(post, s, q) == crate::context::prop_or_undefined(
                    post.objects@[g as int].props.entries@,
                    q,
                ));
                assert(spec_defined_value(pre, s, q) == crate::context::prop_or_undefined(
                    pre.scripts@[s].traits.entries@,
                    q,
                ));
            } else {
                assert(post.scripts@[s] == pre.scripts@[s]);
                match pre.scripts@[s].globals {
                    Some(g2) => {
                        assert(pre.script_ok(s));
                        assert(post.objects@[g2 as int] == pre.objects@[g2 as int]);
                    },
                    None => {},
                }
            }
        },
    }
}

impl Domain {
    /// Create a new domain with no parent and no memory.  Reserved for
    /// bootstrapping the single global domain before the memory-backing
    /// type itself is constructible; memory must be initialized before
    /// user code runs.
    pub fn global_domain(ctx: &mut Context) -> (r: Domain)
        requires
            old(ctx).wf(),
        ensures
            final(ctx).wf(),
            r.0 == old(ctx).domains@.len(),
            final(ctx).domains@.len() == old(ctx).domains@.len() + 1,
            forall|j: int| 0 <= j < old(ctx).domains@.len()
                ==> final(ctx).domains@[j] == old(ctx).domains@[j],
            final(ctx).domains@[r.0 as int].parent is None,
            final(ctx).domains@[r.0 as int].domain_memory is None,
            final(ctx).domains@[r.0 as int].defs.entries@.len() == 0,
            final(ctx).domains@[r.0 as int].classes.entries@.len() == 0,
            final(ctx).scripts@ == old(ctx).scripts@,
            final(ctx).objects@ == old(ctx).objects@,
            final(ctx).classes@ == old(ctx).classes@,
            final(ctx).bytearrays@ == old(ctx).bytearrays@,
            final(ctx).strings@ == old(ctx).strings@,
            final(ctx).namespaces@ == old(ctx).namespaces@,
            same_config(*old(ctx), *final(ctx)),
    {
        let r = Domain(ctx.domains.len());
        ctx.domains.push(DomainData {
            defs: PropertyMap::new(),
            classes: PropertyMap::new(),
            parent: None,
            domain_memory: None,
        });
        proof {
            assert forall|d: int| 0 <= d < ctx.domains@.len() implies ctx.domain_ok(d) by {
                if d < old(ctx).domains@.len() {
                    assert(old(ctx).domain_ok(d));
                }
            }
            assert forall|s: int| 0 <= s < ctx.scripts@.len() implies ctx.script_ok(s) by {
                assert(old(ctx).script_ok(s));
            }
        }
        r
    }

    /// Create a new domain under `parent`, provisioning default domain
    /// memory immediately: the bootstrap hazard does not apply to children.
    pub fn movie_domain(ctx: &mut Context, parent: Domain) -> (r: Domain)
        requires
            old(ctx).wf(),
            parent.0 < old(ctx).domains@.len(),
        ensures
            final(ctx).wf(),
            r.0 == old(ctx).domains@.len(),
            final(ctx).domains@.len() == old(ctx).domains@.len() + 1,
            forall|j: int| 0 <= j < old(ctx).domains@.len()
                ==> final(ctx).domains@[j] == old(ctx).domains@[j],
            final(ctx).domains@[r.0 as int].parent == Some(parent),
            final(ctx).domains@[r.0 as int].defs.entries@.len() == 0,
            final(ctx).domains@[r.0 as int].classes.entries@.len() == 0,
            final(ctx).domains@[r.0 as int].domain_memory == Some(
                ByteArrayObject(old(ctx).bytearrays@.len() as usize),
            ),
            final(ctx).bytearrays@.len() == old(ctx).bytearrays@.len() + 1,
            forall|j: int| 0 <= j < old(ctx).bytearrays@.len()
                ==> final(ctx).bytearrays@[j] == old(ctx).bytearrays@[j],
            final(ctx).bytearrays@[old(ctx).bytearrays@.len() as int].bytes@.len() == 1024,
            final(ctx).scripts@ == old(ctx).scripts@,
            final(ctx).objects@ == old(ctx).objects@,
            final(ctx).classes@ == old(ctx).classes@,
            final(ctx).strings@ == old(ctx).strings@,
            final(ctx).namespaces@ == old(ctx).namespaces@,
            same_config(*old(ctx), *final(ctx)),
    {
        let r = Domain(ctx.domains.len());
        ctx.domains.push(DomainData {
            defs: PropertyMap::new(),
            classes: PropertyMap::new(),
            parent: Some(parent),
            domain_memory: None,
        });
        proof {
            assert forall|d: int| 0 <= d < ctx.domains@.len() implies ctx.domain_ok(d) by {
                if d < old(ctx).domains@.len() {
                    assert(old(ctx).domain_ok(d));
                }
            }
            assert forall|s: int| 0 <= s < ctx.scripts@.len() implies ctx.script_ok(s) by {
                assert(old(ctx).script_ok(s));
            }
        }
        r.init_default_domain_memory(ctx);
        r
    }

    /// The parent of this domain, if any.
    pub fn parent_domain(self, ctx: &Context) -> (r: Option<Domain>)
        requires
            self.0 < ctx.domains@.len(),
        ensures
            r == ctx.domains@[self.0 as int].parent,
    {
        ctx.domains[self.0].parent
    }

    /// Whether this handle is the context's unique global domain.
    pub fn is_avm2_global_domain(self, ctx: &Context) -> (r: bool)
        ensures
            r == (self == ctx.globals),
    {
        self.0 == ctx.globals.0
    }

    /// Whether `name` has been defined in this domain or an ancestor.
    pub fn has_definition(self, ctx: &Context, name: QName) -> (r: bool)
        requires
            ctx.wf(),
            self.0 < ctx.domains@.len(),
        ensures
            r == spec_has_definition(*ctx, self.0 as int, name),
        decreases self.0,
    {
        if ctx.domains[self.0].defs.contains_key(name) {
            return true;
        }
        match ctx.domains[self.0].parent {
            Some(p) => {
                proof {
                    assert(ctx.domain_ok(self.0 as int));
                }
                p.has_definition(ctx, name)
            },
            None => false,
        }
    }

    /// Resolve a multiname to the qualified name and the script that
    /// provided it; `None` when nothing in the chain matches or the
    /// multiname has no local name.
    pub fn get_defining_script(self, ctx: &Context, multiname: &Multiname) -> (r: Result<
        Option<(QName, Script)>,
        Error,
    >)
        requires
            ctx.wf(),
            self.0 < ctx.domains@.len(),
        ensures
            r == Ok::<Option<(QName, Script)>, Error>(
                spec_get_defining_script(*ctx, self.0 as int, multiname.local, multiname.ns_set@),
            ),
        decreases self.0,
    {
        if let Some(local) = multiname.local_name() {
            if let Some((ns, script)) = ctx.domains[self.0].defs.get_with_ns_for_multiname(
                local,
                &multiname.ns_set,
            ) {
                return Ok(Some((QName::new(ns, local), script)));
            }
        }
        match ctx.domains[self.0].parent {
            Some(p) => {
                proof {
                    assert(ctx.domain_ok(self.0 as int));
                }
                p.get_defining_script(ctx, multiname)
            },
            None => Ok(None),
        }
    }

    /// Resolve a multiname to a class registered in this domain or an
    /// ancestor.
    pub fn get_class(self, ctx: &Context, multiname: &Multiname) -> (r: Result<
        Option<usize>,
        Error,
    >)
        requires
            ctx.wf(),
            self.0 < ctx.domains@.len(),
        ensures
            r == Ok::<Option<usize>, Error>(
                spec_get_class(*ctx, self.0 as int, multiname.local, multiname.ns_set@),
            ),
        decreases self.0,
    {
        if let Some(local) = multiname.local_name() {
            if let Some(class) = ctx.domains[self.0].classes.get_for_multiname(
                local,
                &multiname.ns_set,
            ) {
                return Ok(Some(class));
            }
        }
        match ctx.domains[self.0].parent {
            Some(p) => {
                proof {
                    assert(ctx.domain_ok(self.0 as int));
                }
                p.get_class(ctx, multiname)
            },
            None => Ok(None),
        }
    }

    /// Resolve a multiname, failing with the undefined-reference error
    /// (carrying the unqualified name) when nothing in the chain matches.
    pub fn find_defining_script(self, ctx: &Context, multiname: &Multiname) -> (r: Result<
        (QName, Script),
        Error,
    >)
        requires
            ctx.wf(),
            self.0 < ctx.domains@.len(),
        ensures
            ({
                match spec_get_defining_script(
                    *ctx,
                    self.0 as int,
                    multiname.local,
                    multiname.ns_set@,
                ) {
                    Some(v) => r == Ok::<(QName, Script), Error>(v),
                    None => match multiname.local {
                        Some(l) => r == Err::<(QName, Script), Error>(
                            Error::UndefinedReference { local: l },
                        ),
                        None => r == Err::<(QName, Script), Error>(Error::UninitiatedMultiname),
                    },
                }
            }),
    {
        match self.get_defining_script(ctx, multiname) {
            Ok(Some(v)) => Ok(v),
            Ok(None) => match multiname.local_name() {
                Some(l) => Err(Error::UndefinedReference { local: l }),
                None => Err(Error::UninitiatedMultiname),
            },
            Err(e) => Err(e),
        }
    }

    /// Export a definition from a script into this domain.  A silent no-op
    /// when the name already resolves here or in an ancestor: definitions
    /// are first-writer-wins and an ancestor's entry is never overridden
    /// retroactively.
    pub fn export_definition(self, ctx: &mut Context, name: QName, script: Script)
        requires
            old(ctx).wf(),
            self.0 < old(ctx).domains@.len(),
            script.0 < old(ctx).scripts@.len(),
        ensures
            final(ctx).wf(),
            export_definition_post(*old(ctx), *final(ctx), self.0 as int, name, script),
    {
        if self.has_definition(ctx, name) {
            return;
        }
        proof {
            lemma_find_key(ctx.domains@[self.0 as int].defs.entries@, name);
        }
        let dd = &mut ctx.domains[self.0];
        dd.defs.insert(name, script);
        proof {
            assert forall|d: int| 0 <= d < ctx.domains@.len() implies ctx.domain_ok(d) by {
                assert(old(ctx).domain_ok(d));
                if d == self.0 as int {
                    assert forall|i: int| 0 <= i < ctx.domains@[d].defs.entries@.len() implies
                        (#[trigger] ctx.domains@[d].defs.entries@[i]).1.0
                            < ctx.scripts@.len() by {
                        if i < old(ctx).domains@[d].defs.entries@.len() {
                            assert(old(ctx).domains@[d].defs.entries@[i].1.0
                                < old(ctx).scripts@.len());
                        }
                    }
                }
            }
            assert forall|s: int| 0 <= s < ctx.scripts@.len() implies ctx.script_ok(s) by {
                assert(old(ctx).script_ok(s));
            }
        }
    }

    /// Register a class in this domain under the class's own name,
    /// unconditionally: class registration is last-writer-wins.
    pub fn export_class(self, ctx: &mut Context, class: usize)
        requires
            old(ctx).wf(),
            self.0 < old(ctx).domains@.len(),
            class < old(ctx).classes@.len(),
        ensures
            final(ctx).wf(),
            export_class_post(*old(ctx), *final(ctx), self.0 as int, class as int),
    {
        let name = ctx.classes[class].name;
        let dd = &mut ctx.domains[self.0];
        dd.classes.insert(name, class);
        proof {
            assert forall|d: int| 0 <= d < ctx.domains@.len() implies ctx.domain_ok(d) by {
                assert(old(ctx).domain_ok(d));
            }
            assert forall|s: int| 0 <= s < ctx.scripts@.len() implies ctx.script_ok(s) by {
                assert(old(ctx).script_ok(s));
            }
        }
    }

    /// The domain's memory buffer.  Requires the buffer to be present:
    /// a domain in use without memory is a bootstrap-ordering bug in the
    /// embedding, not a recoverable condition.
    pub fn domain_memory(self, ctx: &Context) -> (r: ByteArrayObject)
        requires
            self.0 < ctx.domains@.len(),
            ctx.domains@[self.0 as int].domain_memory is Some,
        ensures
            Some(r) == ctx.domains@[self.0 as int].domain_memory,
    {
        match ctx.domains[self.0].domain_memory {
            Some(m) => m,
            None => vstd::pervasive::unreached(),
        }
    }

    /// Attach a memory buffer to this domain, replacing any present one.
    pub fn set_domain_memory(self, ctx: &mut Context, domain_memory: ByteArrayObject)
        requires
            old(ctx).wf(),
            self.0 < old(ctx).domains@.len(),
            domain_memory.0 < old(ctx).bytearrays@.len(),
        ensures
            final(ctx).wf(),
            final(ctx).domains@.len() == old(ctx).domains@.len(),
            forall|j: int| 0 <= j < old(ctx).domains@.len() && j != self.0
                ==> final(ctx).domains@[j] == old(ctx).domains@[j],
            final(ctx).domains@[self.0 as int].domain_memory == Some(domain_memory),
            final(ctx).domains@[self.0 as int].defs == old(ctx).domains@[self.0 as int].defs,
            final(ctx).domains@[self.0 as int].classes == old(
                ctx,
            ).domains@[self.0 as int].classes,
            final(ctx).domains@[self.0 as int].parent == old(ctx).domains@[self.0 as int].parent,
            final(ctx).scripts@ == old(ctx).scripts@,
            final(ctx).objects@ == old(ctx).objects@,
            final(ctx).classes@ == old(ctx).classes@,
            final(ctx).bytearrays@ == old(ctx).bytearrays@,
            final(ctx).strings@ == old(ctx).strings@,
            final(ctx).namespaces@ == old(ctx).namespaces@,
            same_config(*old(ctx), *final(ctx)),
    {
        let dd = &mut ctx.domains[self.0];
        dd.domain_memory = Some(domain_memory);
        proof {
            assert forall|d: int| 0 <= d < ctx.domains@.len() implies ctx.domain_ok(d) by {
                assert(old(ctx).domain_ok(d));
            }
            assert forall|s: int| 0 <= s < ctx.scripts@.len() implies ctx.script_ok(s) by {
                assert(old(ctx).script_ok(s));
            }
        }
    }

    /// Provision the default 1024-byte memory buffer if none is present.
    /// Idempotent: a present buffer is never replaced, so the original
    /// buffer's identity survives repeated calls.
    pub fn init_default_domain_memory(self, ctx: &mut Context)
        requires
            old(ctx).wf(),
            self.0 < old(ctx).domains@.len(),
        ensures
            final(ctx).wf(),
            init_memory_post(*old(ctx), *final(ctx), self.0 as int),
    {
        match ctx.domains[self.0].domain_memory {
            Some(_) => {},
            None => {
                let mem = ByteArrayObject::with_length(ctx, 1024);
                let dd = &mut ctx.domains[self.0];
                dd.domain_memory = Some(mem);
                proof {
                    assert forall|d: int| 0 <= d < ctx.domains@.len() implies ctx.domain_ok(d) by {
                        assert(old(ctx).domain_ok(d));
                    }
                    assert forall|s: int| 0 <= s < ctx.scripts@.len() implies ctx.script_ok(s) by {
                        assert(old(ctx).script_ok(s));
                    }
                }
            },
        }
    }

    /// Retrieve the value defined under `name`: resolve the defining
    /// script, materialize its global scope (memoized), and read the
    /// property off that scope.
    pub fn get_defined_value(self, ctx: &mut Context, name: QName) -> (r: Result<Value, Error>)
        requires
            old(ctx).wf(),
            self.0 < old(ctx).domains@.len(),
        ensures
            final(ctx).wf(),
            r == gdv_result(*old(ctx), self.0 as int, name),
            gdv_ctx_rel(*old(ctx), *final(ctx), self.0 as int, name),
            final(ctx).domains@ == old(ctx).domains@,
            final(ctx).classes@ == old(ctx).classes@,
            final(ctx).bytearrays@ == old(ctx).bytearrays@,
            final(ctx).strings@ == old(ctx).strings@,
            final(ctx).namespaces@ == old(ctx).namespaces@,
            same_config(*old(ctx), *final(ctx)),
    {
        let mn = Multiname::from_qname(name);
        match self.find_defining_script(ctx, &mn) {
            Err(e) => Err(e),
            Ok((qname, script)) => {
                proof {
                    lemma_resolved_in_range(*ctx, self.0 as int, Some(name.local), seq![name.ns]);
                }
                let g = script.globals(ctx);
                let v = ctx.get_property(g, qname);
                proof {
                    let pre = *old(ctx);
                    let post = *ctx;
                    let s = script.0 as int;
                    match pre.scripts@[s].globals {
                        Some(_) => {},
                        None => {
                            assert(post.objects@[g as int].props.entries@
                                == pre.scripts@[s].traits.entries@);
                        },
                    }
                }
                Ok(v)
            },
        }
    }

    /// Retrieve a value, with special handling for parameterized-type
    /// names.  `Vector.<T>` in a reserved namespace is rewritten to a
    /// lookup of plain `Vector`, the inner name `T` is resolved as its own
    /// qualified name, and if (and only if) the base lookup succeeded the
    /// generic class is specialized with the resolved type argument; a
    /// fresh specialized class object is produced on every request.
    /// Non-generic names bypass all of this and resolve directly.
    pub fn get_defined_value_handling_vector(self, ctx: &mut Context, name: QName) -> (r: Result<
        Value,
        Error,
    >)
        requires
            old(ctx).wf(),
            self.0 < old(ctx).domains@.len(),
            name.local < old(ctx).strings@.len(),
        ensures
            final(ctx).wf(),
            gdvhv_post(*old(ctx), *final(ctx), self.0 as int, name, r),
            final(ctx).domains@ == old(ctx).domains@,
            final(ctx).classes@ == old(ctx).classes@,
            final(ctx).bytearrays@ == old(ctx).bytearrays@,
            same_config(*old(ctx), *final(ctx)),
    {
        let ns_ok = name.ns == ctx.vector_public_namespace
            || name.ns == ctx.vector_internal_namespace || name.ns == ctx.public_namespace;
        let is_pat = ns_ok && crate::name::is_vector_local(ctx.string_at(name.local));
        if !is_pat {
            return self.get_defined_value(ctx, name);
        }
        let ghost c0 = *ctx;
        let inner = crate::name::strip_vector_inner(ctx.string_at(name.local));
        let ghost inner_seq = inner@;
        let tq = QName::from_qualified_name(ctx, inner);
        let ghost c1 = *ctx;
        let vl = ctx.intern(crate::name::vector_str_vec());
        let vector_name = QName::new(ctx.vector_public_namespace, vl);
        let ghost c2 = *ctx;
        proof {
            assert(tq == crate::context::parsed_qname(c0, inner_seq));
            crate::context::lemma_intern_after(
                c0.strings@,
                crate::context::parsed_local(inner_seq),
                c1.strings@,
                crate::name::vector_str(),
            );
            assert(vector_name == vector_base_qname(c0, inner_seq));
        }
        let res = self.get_defined_value(ctx, vector_name);
        let ghost c3 = *ctx;
        let rt = self.get_defined_value(ctx, tq);
        let ghost c4 = *ctx;
        proof {
            lemma_gdv_result_congruent(c0, c2, self.0 as int, vector_name);
            lemma_gdv_result_congruent(c0, c2, self.0 as int, tq);
            assert(res == gdv_result(c0, self.0 as int, vector_name));
            lemma_gdv_result_stable(c2, c3, self.0 as int, vector_name, self.0 as int, tq);
            assert(rt == gdv_result(c0, self.0 as int, tq));
            // the object arena after both retrievals: the old records
            // unchanged, any fresh record a plain scope object
            lemma_objects_extended(c2, c3, self.0 as int, vector_name);
            lemma_objects_extended(c3, c4, self.0 as int, tq);
        }
        let tv = match rt {
            Ok(tv) => tv,
            Err(e) => {
                return Err(e);
            },
        };
        match res {
            Err(e) => Err(e),
            Ok(v) => match v.as_object() {
                None => Err(Error::GenericTypeApplication),
                Some(o) => {
                    if o < ctx.objects.len() {
                        proof {
                            if o < c0.objects@.len() {
                                assert(ctx.objects@[o as int] == c0.objects@[o as int]);
                            } else {
                                assert(ctx.objects@[o as int].kind is Scope);
                            }
                        }
                        match ctx.apply(o, tv) {
                            Ok(o2) => Ok(Value::Object(o2)),
                            Err(e) => Err(e),
                        }
                    } else {
                        Err(Error::GenericTypeApplication)
                    }
                },
            },
        }
    }
}

/// Whether a qualified name requests a parameterized type: its namespace
/// is one of the three reserved ones and its local name has the literal
/// `Vector.<`…`>` shape.
pub open spec fn is_vector_name(ctx: Context, name: QName) -> bool {
    &&& (name.ns == ctx.vector_public_namespace || name.ns == ctx.vector_internal_namespace
        || name.ns == ctx.public_namespace)
    &&& crate::name::is_vector_local_spec(ctx.strings@[name.local as int]@)
}

/// The rewritten base name a parameterized-type lookup resolves: plain
/// `Vector` in the vector-public namespace.  The local-name handle is the
/// one interning `Vector` yields after the inner name's local part has
/// been interned.
pub open spec fn vector_base_qname(pre: Context, inner: Seq<u8>) -> QName {
    QName {
        ns: pre.vector_public_namespace,
        local: crate::context::intern_id_after(
            pre.strings@,
            crate::context::parsed_local(inner),
            crate::name::vector_str(),
        ) as usize,
    }
}

/// The full contract of `get_defined_value_handling_vector`, stated over
/// the context as it was before the call.  A non-generic name resolves
/// exactly as `get_defined_value` does.  A parameterized name is split:
/// the base resolves as plain `Vector`, the inner name resolves as its own
/// qualified name; an inner failure propagates first, then a base failure;
/// a base value that is not a generic class object is a generic-type
/// application error; otherwise the result is a fresh specialized class
/// object recording the base and the resolved type argument.
pub open spec fn gdvhv_post(
    pre: Context,
    post: Context,
    d: int,
    name: QName,
    r: Result<Value, Error>,
) -> bool {
    if !is_vector_name(pre, name) {
        r == gdv_result(pre, d, name) && gdv_ctx_rel(pre, post, d, name)
    } else {
        let inner = crate::name::vector_inner_spec(pre.strings@[name.local as int]@);
        let tq = crate::context::parsed_qname(pre, inner);
        let vq = vector_base_qname(pre, inner);
        let rv = gdv_result(pre, d, vq);
        let rt = gdv_result(pre, d, tq);
        match rt {
            Err(e) => r == Err::<Value, Error>(e),
            Ok(tv) => match rv {
                Err(e) => r == Err::<Value, Error>(e),
                Ok(v) => match v {
                    Value::Object(o) => if o < pre.objects@.len()
                        && pre.objects@[o as int].kind is GenericClass {
                        r matches Ok(Value::Object(o2)) && o2 as int + 1 == post.objects@.len()
                            && post.objects@[o2 as int].kind == (ObjectKind::SpecializedClass {
                            base: o,
                            type_arg: tv,
                        }) && post.objects@[o2 as int].props.entries@.len() == 0
                    } else {
                        r == Err::<Value, Error>(Error::GenericTypeApplication)
                    },
                    _ => r == Err::<Value, Error>(Error::GenericTypeApplication),
                },
            },
        }
    }
}

/// Retrieved results only look at the domain, script and object arenas.
pub proof fn lemma_gdv_result_congruent(a: Context, b: Context, d: int, name: QName)
    requires
        b.domains@ == a.domains@,
        b.scripts@ == a.scripts@,
        b.objects@ == a.objects@,
    ensures
        gdv_result(b, d, name) == gdv_result(a, d, name),
{
    lemma_resolution_congruent(a, b, d, Some(name.local), seq![name.ns]);
}

/// Materializing a global scope during one retrieval changes no other
/// retrieval's result.
pub proof fn lemma_gdv_result_stable(
    pre: Context,
    post: Context,
    dm: int,
    mat_name: QName,
    d: int,
    name: QName,
)
    requires
        pre.wf(),
        0 <= d < pre.domains@.len(),
        0 <= dm < pre.domains@.len(),
        gdv_ctx_rel(pre, post, dm, mat_name),
    ensures
        gdv_result(post, d, name) == gdv_result(pre, d, name),
{
    match spec_get_defining_script(pre, dm, Some(mat_name.local), seq![mat_name.ns]) {
        None => {},
        Some((qm, sm)) => {
            let g = choose|g: usize| globals_rel(pre, post, sm.0 as int, g);
            assert(globals_rel(pre, post, sm.0 as int, g));
            lemma_resolved_in_range(pre, dm, Some(mat_name.local), seq![mat_name.ns]);
            assert(post.domains@ == pre.domains@) by {
                match pre.scripts@[sm.0 as int].globals {
                    Some(_) => {},
                    None => {},
                }
            }
            lemma_resolution_congruent(pre, post, d, Some(name.local), seq![name.ns]);
            lemma_resolved_in_range(pre, d, Some(name.local), seq![name.ns]);
            match spec_get_defining_script(pre, d, Some(name.local), seq![name.ns]) {
                None => {},
                Some((q2, s2)) => {
                    lemma_defined_value_stable(pre, post, sm.0 as int, g, s2.0 as int, q2);
                },
            }
        },
    }
}

/// After a retrieval, the old object records are unchanged and any fresh
/// record is a plain scope object.
pub proof fn lemma_objects_extended(pre: Context, post: Context, d: int, name: QName)
    requires
        gdv_ctx_rel(pre, post, d, name),
    ensures
        post.objects@.len() >= pre.objects@.len(),
        forall|j: int| 0 <= j < pre.objects@.len() ==> post.objects@[j] == pre.objects@[j],
        forall|j: int| pre.objects@.len() <= j < post.objects@.len()
            ==> post.objects@[j].kind is Scope,
{
    match spec_get_defining_script(pre, d, Some(name.local), seq![name.ns]) {
        None => {},
        Some((q, s)) => {
            let g = choose|g: usize| globals_rel(pre, post, s.0 as int, g);
            assert(globals_rel(pre, post, s.0 as int, g));
            match pre.scripts@[s.0 as int].globals {
                Some(_) => {},
                None => {},
            }
        },
    }
}

/// How `export_definition` changes the context: nothing when the name
/// already resolves; otherwise exactly one entry appended to the local
/// definition map.
pub open spec fn export_definition_post(
    pre: Context,
    post: Context,
    d: int,
    name: QName,
    script: Script,
) -> bool {
    if spec_has_definition(pre, d, name) {
        post == pre
    } else {
        &&& post.domains@.len() == pre.domains@.len()
        &&& (forall|j: int| 0 <= j < pre.domains@.len() && j != d
            ==> post.domains@[j] == pre.domains@[j])
        &&& post.domains@[d].defs.entries@ == pre.domains@[d].defs.entries@.push((name, script))
        &&& post.domains@[d].classes == pre.domains@[d].classes
        &&& post.domains@[d].parent == pre.domains@[d].parent
        &&& post.domains@[d].domain_memory == pre.domains@[d].domain_memory
        &&& post.scripts@ == pre.scripts@
        &&& post.objects@ == pre.objects@
        &&& post.classes@ == pre.classes@
        &&& post.bytearrays@ == pre.bytearrays@
        &&& post.strings@ == pre.strings@
        &&& post.namespaces@ == pre.namespaces@
        &&& same_config(pre, post)
    }
}

/// How `export_class` changes the context: the local class map gains or
/// overwrites the entry under the class's own name.
pub open spec fn export_class_post(pre: Context, post: Context, d: int, class: int) -> bool {
    let name = pre.classes@[class].name;
    let i = find_key(pre.domains@[d].classes.entries@, name);
    &&& post.domains@.len() == pre.domains@.len()
    &&& (forall|j: int| 0 <= j < pre.domains@.len() && j != d
        ==> post.domains@[j] == pre.domains@[j])
    &&& post.domains@[d].classes.entries@ == (if i < 0 {
        pre.domains@[d].classes.entries@.push((name, class as usize))
    } else {
        pre.domains@[d].classes.entries@.update(i, (name, class as usize))
    })
    &&& post.domains@[d].defs == pre.domains@[d].defs
    &&& post.domains@[d].parent == pre.domains@[d].parent
    &&& post.domains@[d].domain_memory == pre.domains@[d].domain_memory
    &&& post.scripts@ == pre.scripts@
    &&& post.objects@ == pre.objects@
    &&& post.classes@ == pre.classes@
    &&& post.bytearrays@ == pre.bytearrays@
    &&& post.strings@ == pre.strings@
    &&& post.namespaces@ == pre.namespaces@
    &&& same_config(pre, post)
}

/// The text before the name in the undefined-variable diagnostic:
/// `Error #1065: Variable `.
pub open spec fn undefined_message_prefix() -> Seq<u8> {
    seq![
        69u8, 114u8, 114u8, 111u8, 114u8, 32u8, 35u8, 49u8, 48u8, 54u8, 53u8, 58u8, 32u8, 86u8,
        97u8, 114u8, 105u8, 97u8, 98u8, 108u8, 101u8, 32u8,
    ]
}

/// The text after the name in the undefined-variable diagnostic:
/// ` is not defined.`
pub open spec fn undefined_message_suffix() -> Seq<u8> {
    seq![
        32u8, 105u8, 115u8, 32u8, 110u8, 111u8, 116u8, 32u8, 100u8, 101u8, 102u8, 105u8, 110u8,
        101u8, 100u8, 46u8,
    ]
}

fn undefined_message_prefix_vec() -> (r: Vec<u8>)
    ensures
        r@ == undefined_message_prefix(),
{
    let mut r: Vec<u8> = Vec::new();
    r.push(69u8);
    r.push(114u8);
    r.push(114u8);
    r.push(111u8);
    r.push(114u8);
    r.push(32u8);
    r.push(35u8);
    r.push(49u8);
    r.push(48u8);
    r.push(54u8);
    r.push(53u8);
    r.push(58u8);
    r.push(32u8);
    r.push(86u8);
    r.push(97u8);
    r.push(114u8);
    r.push(105u8);
    r.push(97u8);
    r.push(98u8);
    r.push(108u8);
    r.push(101u8);
    r.push(32u8);
    proof {
        assert(r@ =~= undefined_message_prefix());
    }
    r
}

fn undefined_message_suffix_vec() -> (r: Vec<u8>)
    ensures
        r@ == undefined_message_suffix(),
{
    let mut r: Vec<u8> = Vec::new();
    r.push(32u8);
    r.push(105u8);
    r.push(115u8);
    r.push(32u8);
    r.push(110u8);
    r.push(111u8);
    r.push(116u8);
    r.push(32u8);
    r.push(100u8);
    r.push(101u8);
    r.push(102u8);
    r.push(105u8);
    r.push(110u8);
    r.push(101u8);
    r.push(100u8);
    r.push(46u8);
    proof {
        assert(r@ =~= undefined_message_suffix());
    }
    r
}

/// The diagnostic for an undefined variable, formatted as the historical
/// runtime documents it, legacy numeric code included:
/// `Error #1065: Variable <name> is not defined.`
pub fn undefined_reference_message(ctx: &Context, local: usize) -> (r: Vec<u8>)
    requires
        local < ctx.strings@.len(),
    ensures
        r@ == undefined_message_prefix() + ctx.strings@[local as int]@
            + undefined_message_suffix(),
{
    let mut r = undefined_message_prefix_vec();
    let mut nm = crate::util::copy_bytes(ctx.string_at(local));
    r.append(&mut nm);
    let mut sfx = undefined_message_suffix_vec();
    r.append(&mut sfx);
    r
}

/// A domain's own definitions always shadow an ancestor's: when a
/// multiname matches an entry of the local definition map, resolution
/// returns that local entry, whatever any ancestor exports under the
/// same name.
pub proof fn lemma_child_shadows_parent(ctx: Context, d: int, local: usize, ns_set: Seq<usize>)
    requires
        0 <= d < ctx.domains@.len(),
        find_mn(ctx.domains@[d].defs.entries@, local, ns_set) >= 0,
    ensures
        ({
            let entries = ctx.domains@[d].defs.entries@;
            let i = find_mn(entries, local, ns_set);
            spec_get_defining_script(ctx, d, Some(local), ns_set) == Some(
                (QName { ns: entries[i].0.ns, local }, entries[i].1),
            )
        }),
{
}

/// At a root domain (no parent), a multiname that matches no local entry
/// resolves to nothing at all; `find_defining_script` then reports the
/// undefined reference carrying that exact local name.
pub proof fn lemma_root_lookup_fails(ctx: Context, d: int, local: usize, ns_set: Seq<usize>)
    requires
        0 <= d < ctx.domains@.len(),
        ctx.domains@[d].parent is None,
        find_mn(ctx.domains@[d].defs.entries@, local, ns_set) < 0,
    ensures
        spec_get_defining_script(ctx, d, Some(local), ns_set) is None,
{
}

/// Matching a single-namespace multiname is exactly key equality.
pub proof fn lemma_singleton_mn_is_key<V>(s: Seq<(QName, V)>, name: QName)
    ensures
        forall|j: int| 0 <= j < s.len()
            ==> crate::property_map::mn_matches(#[trigger] s[j].0, name.local, seq![name.ns])
                == (s[j].0 == name),
    decreases s.len(),
{
    assert forall|j: int| 0 <= j < s.len() implies crate::property_map::mn_matches(
        #[trigger] s[j].0,
        name.local,
        seq![name.ns],
    ) == (s[j].0 == name) by {
        let k = s[j].0;
        assert(seq![name.ns][0] == name.ns);
        if k.ns == name.ns {
            assert(seq![name.ns].contains(k.ns));
        }
        if seq![name.ns].contains(k.ns) {
            let w = choose|w: int| 0 <= w < seq![name.ns].len() && seq![name.ns][w] == k.ns;
            assert(w == 0);
        }
    }
}

/// Exporting a definition is idempotent and first-writer-wins: after a
/// first export of a fresh name, a second export of the same name (same
/// or different script) changes nothing, and lookups keep returning the
/// first export's script.
pub proof fn lemma_export_definition_idempotent(
    c0: Context,
    c1: Context,
    c2: Context,
    d: int,
    name: QName,
    s1: Script,
    s2: Script,
)
    requires
        0 <= d < c0.domains@.len(),
        !spec_has_definition(c0, d, name),
        export_definition_post(c0, c1, d, name, s1),
        export_definition_post(c1, c2, d, name, s2),
    ensures
        c2 == c1,
        spec_get_defining_script(c1, d, Some(name.local), seq![name.ns]) == Some((name, s1)),
{
    let e0 = c0.domains@[d].defs.entries@;
    let e1 = c1.domains@[d].defs.entries@;
    assert(find_key(e0, name) < 0);
    assert(e1 == e0.push((name, s1)));
    lemma_find_key(e0, name);
    lemma_find_key(e1, name);
    assert(e1[e0.len() as int].0 == name);
    assert(spec_has_definition(c1, d, name));
    assert(c2 == c1);
    lemma_singleton_mn_is_key(e1, name);
    lemma_find_mn(e1, name.local, seq![name.ns]);
    let i = find_mn(e1, name.local, seq![name.ns]);
    assert(crate::property_map::mn_matches(e1[e0.len() as int].0, name.local, seq![name.ns]));
    assert(i >= 0);
    assert(e1[i].0 == name);
    if i < e0.len() {
        assert(e1[i] == e0[i]);
        assert(false);
    }
    assert(i == e0.len());
    assert(spec_get_defining_script(c1, d, Some(name.local), seq![name.ns]) == Some(
        (QName { ns: e1[i].0.ns, local: name.local }, s1),
    ));
}

/// Class export is last-writer-wins: after exporting two classes under
/// the same name into the same domain, the second is the one every lookup
/// returns.
pub proof fn lemma_export_class_last_writer_wins(
    c0: Context,
    c1: Context,
    c2: Context,
    d: int,
    k1: int,
    k2: int,
)
    requires
        0 <= d < c0.domains@.len(),
        0 <= k1 < c0.classes@.len(),
        0 <= k2 < c0.classes@.len(),
        c0.classes@[k2].name == c0.classes@[k1].name,
        export_class_post(c0, c1, d, k1),
        export_class_post(c1, c2, d, k2),
    ensures
        spec_get_class(c2, d, Some(c0.classes@[k1].name.local), seq![c0.classes@[k1].name.ns])
            == Some(k2 as usize),
{
    let name = c0.classes@[k1].name;
    let e0 = c0.domains@[d].classes.entries@;
    let e1 = c1.domains@[d].classes.entries@;
    let e2 = c2.domains@[d].classes.entries@;
    lemma_find_key(e0, name);
    let i0 = find_key(e0, name);
    let i1 = find_key(e1, name);
    lemma_find_key(e1, name);
    if i0 < 0 {
        assert(e1 == e0.push((name, k1 as usize)));
        assert(e1[e0.len() as int].0 == name);
        assert(i1 >= 0);
        if i1 < e0.len() {
            assert(e1[i1] == e0[i1]);
            assert(false);
        }
        assert(i1 == e0.len());
    } else {
        assert(e1 == e0.update(i0, (name, k1 as usize)));
        assert(e1[i0].0 == name);
        assert(i1 >= 0);
        if i1 < i0 {
            assert(e1[i1] == e0[i1]);
            assert(false);
        }
        if i1 > i0 {
            assert(false);
        }
        assert(i1 == i0);
    }
    assert(e2 == e1.update(i1, (name, k2 as usize)));
    lemma_singleton_mn_is_key(e2, name);
    lemma_find_mn(e2, name.local, seq![name.ns]);
    let m = find_mn(e2, name.local, seq![name.ns]);
    assert(e2[i1].0 == name);
    assert(crate::property_map::mn_matches(e2[i1].0, name.local, seq![name.ns]));
    assert(m >= 0);
    assert(e2[m].0 == name);
    if m < i1 {
        assert(e2[m] == e1[m]);
        if i0 >= 0 {
            assert(e1[m] == e0[m]);
            assert(false);
        } else {
            assert(e1[m] == e0[m]);
            assert(false);
        }
    }
    if m > i1 {
        assert(false);
    }
    assert(m == i1);
    assert(spec_get_class(c2, d, Some(name.local), seq![name.ns]) == Some(e2[m].1));
}

/// Initializing default domain memory twice changes nothing the second
/// time: the buffer attached by the first call keeps its identity.
pub proof fn lemma_init_default_memory_idempotent(c0: Context, c1: Context, c2: Context, d: int)
    requires
        0 <= d < c0.domains@.len(),
        c0.domains@[d].domain_memory is None,
        init_memory_post(c0, c1, d),
        init_memory_post(c1, c2, d),
    ensures
        c2 == c1,
        c1.domains@[d].domain_memory == Some(ByteArrayObject(c0.bytearrays@.len() as usize)),
{
}

/// How `init_default_domain_memory` changes the context: nothing when
/// memory is present; otherwise one fresh zeroed 1024-byte buffer is
/// attached.
pub open spec fn init_memory_post(pre: Context, post: Context, d: int) -> bool {
    if pre.domains@[d].domain_memory is Some {
        post == pre
    } else {
        &&& post.bytearrays@.len() == pre.bytearrays@.len() + 1
        &&& (forall|j: int| 0 <= j < pre.bytearrays@.len()
            ==> post.bytearrays@[j] == pre.bytearrays@[j])
        &&& post.bytearrays@[pre.bytearrays@.len() as int].bytes@.len() == 1024
        &&& (forall|i: int| 0 <= i < 1024
            ==> post.bytearrays@[pre.bytearrays@.len() as int].bytes@[i] == 0u8)
        &&& post.domains@.len() == pre.domains@.len()
        &&& (forall|j: int| 0 <= j < pre.domains@.len() && j != d
            ==> post.domains@[j] == pre.domains@[j])
        &&& post.domains@[d].domain_memory == Some(
            ByteArrayObject(pre.bytearrays@.len() as usize),
        )
        &&& post.domains@[d].defs == pre.domains@[d].defs
        &&& post.domains@[d].classes == pre.domains@[d].classes
        &&& post.domains@[d].parent == pre.domains@[d].parent
        &&& post.scripts@ == pre.scripts@
        &&& post.objects@ == pre.objects@
        &&& post.classes@ == pre.classes@
        &&& post.strings@ == pre.strings@
        &&& post.namespaces@ == pre.namespaces@
        &&& same_config(pre, post)
    }
}

} // verus!
