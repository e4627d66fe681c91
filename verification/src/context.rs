//! The shared execution context: arenas for domains, scripts, objects,
//! classes and byte arrays, plus the interning tables for strings and
//! namespaces.
//!
//! Every handle in the crate (`Domain`, `Script`, object, class, string or
//! namespace index) points into one of these arenas.  Records are only ever
//! appended, so handles stay valid for the life of the context, and handle
//! equality is identity of the underlying record.

use vstd::prelude::*;
use crate::domain::{Domain, DomainData};
use crate::name::QName;
use crate::property_map::PropertyMap;
use crate::script::{Script, ScriptData};
use crate::util::bytes_eq;
use crate::value::Value;

verus! {

/// A namespace: a URI plus whether it is an ordinary package namespace
/// (non-package namespaces are reserved internal ones).
pub struct NamespaceDef {
    pub uri: Vec<u8>,
    pub is_package: bool,
}

/// What role an object plays.
#[derive(Clone, Copy, PartialEq, Eq, Structural, Debug)]
pub enum ObjectKind {
    /// A plain property bag, such as a script's global scope.
    Scope,
    /// A class object that accepts a type argument.
    GenericClass,
    /// A class object that does not accept type arguments.
    PlainClass,
    /// The result of specializing a generic class with a type argument.
    SpecializedClass { base: usize, type_arg: Value },
}

/// An object: a property bag with a role.
pub struct ObjectData {
    pub props: PropertyMap<Value>,
    pub kind: ObjectKind,
}

/// Runtime class metadata, registered under its own qualified name.
pub struct ClassData {
    pub name: QName,
}

/// A resizable flat byte buffer.
pub struct ByteArrayData {
    pub bytes: Vec<u8>,
}

/// Handle to a byte-array record inside a context.
#[derive(Clone, Copy, PartialEq, Eq, Structural, Debug)]
pub struct ByteArrayObject(pub usize);

/// Index of the first interned string equal to `c`, or -1.
pub open spec fn find_str(s: Seq<Vec<u8>>, c: Seq<u8>) -> int
    decreases s.len(),
{
    if s.len() == 0 {
        -1
    } else if s[0]@ == c {
        0
    } else {
        let r = find_str(s.drop_first(), c);
        if r < 0 {
            -1
        } else {
            r + 1
        }
    }
}

/// The handle `intern` hands out for content `c` against table `s`.
pub open spec fn intern_id(s: Seq<Vec<u8>>, c: Seq<u8>) -> int {
    if find_str(s, c) >= 0 {
        find_str(s, c)
    } else {
        s.len() as int
    }
}

/// The string table after interning content `c` (unchanged if present).
pub open spec fn intern_extends(s: Seq<Vec<u8>>, c: Seq<u8>, post: Seq<Vec<u8>>) -> bool {
    if find_str(s, c) >= 0 {
        post == s
    } else {
        post.len() == s.len() + 1
            && (forall|j: int| 0 <= j < s.len() ==> post[j] == s[j])
            && post[s.len() as int]@ == c
    }
}

/// `find_str` returns -1 exactly when no entry matches, and otherwise the
/// least index of a matching entry.
pub proof fn lemma_find_str(s: Seq<Vec<u8>>, c: Seq<u8>)
    ensures
        find_str(s, c) == -1 ==> (forall|j: int| 0 <= j < s.len() ==> s[j]@ != c),
        find_str(s, c) != -1 ==> 0 <= find_str(s, c) < s.len() && s[find_str(s, c)]@ == c
            && (forall|j: int| 0 <= j < find_str(s, c) ==> s[j]@ != c),
    decreases s.len(),
{
    if s.len() == 0 {
    } else if s[0]@ == c {
    } else {
        let t = s.drop_first();
        lemma_find_str(t, c);
        assert forall|j: int| 1 <= j < s.len() implies s[j] == t[j - 1] by {}
        if find_str(t, c) == -1 {
            assert forall|j: int| 0 <= j < s.len() implies s[j]@ != c by {
                if j >= 1 {
                    assert(s[j] == t[j - 1]);
                }
            }
        } else {
            let i = find_str(t, c);
            assert(s[i + 1] == t[i]);
            assert forall|j: int| 0 <= j < i + 1 implies s[j]@ != c by {
                if j >= 1 {
                    assert(s[j] == t[j - 1]);
                }
            }
        }
    }
}

/// Index of the first package namespace with this URI, or -1.
pub open spec fn find_pkg_ns(s: Seq<NamespaceDef>, uri: Seq<u8>) -> int
    decreases s.len(),
{
    if s.len() == 0 {
        -1
    } else if s[0].is_package && s[0].uri@ == uri {
        0
    } else {
        let r = find_pkg_ns(s.drop_first(), uri);
        if r < 0 {
            -1
        } else {
            r + 1
        }
    }
}

/// `find_pkg_ns` returns -1 exactly when no entry matches, and otherwise
/// the least index of a matching entry.
pub proof fn lemma_find_pkg_ns(s: Seq<NamespaceDef>, uri: Seq<u8>)
    ensures
        find_pkg_ns(s, uri) == -1 ==> (forall|j: int|
            0 <= j < s.len() ==> !(s[j].is_package && s[j].uri@ == uri)),
        find_pkg_ns(s, uri) != -1 ==> 0 <= find_pkg_ns(s, uri) < s.len()
            && s[find_pkg_ns(s, uri)].is_package && s[find_pkg_ns(s, uri)].uri@ == uri
            && (forall|j: int| 0 <= j < find_pkg_ns(s, uri)
                ==> !(s[j].is_package && s[j].uri@ == uri)),
    decreases s.len(),
{
    if s.len() == 0 {
    } else if s[0].is_package && s[0].uri@ == uri {
    } else {
        let t = s.drop_first();
        lemma_find_pkg_ns(t, uri);
        assert forall|j: int| 1 <= j < s.len() implies s[j] == t[j - 1] by {}
        if find_pkg_ns(t, uri) == -1 {
            assert forall|j: int| 0 <= j < s.len() implies !(s[j].is_package && s[j].uri@ == uri)
                by {
                if j >= 1 {
                    assert(s[j] == t[j - 1]);
                }
            }
        } else {
            let i = find_pkg_ns(t, uri);
            assert(s[i + 1] == t[i]);
            assert forall|j: int| 0 <= j < i + 1 implies !(s[j].is_package && s[j].uri@ == uri)
                by {
                if j >= 1 {
                    assert(s[j] == t[j - 1]);
                }
            }
        }
    }
}

/// All script handles stored as map values lie inside the script arena.
pub open spec fn scripts_in_range(s: Seq<(QName, Script)>, n: int) -> bool {
    forall|i: int| 0 <= i < s.len() ==> (#[trigger] s[i]).1.0 < n
}

pub proof fn lemma_scripts_in_range_mono(s: Seq<(QName, Script)>, n1: int, n2: int)
    requires
        scripts_in_range(s, n1),
        n1 <= n2,
    ensures
        scripts_in_range(s, n2),
{
    assert forall|i: int| 0 <= i < s.len() implies (#[trigger] s[i]).1.0 < n2 by {
        assert(s[i].1.0 < n1);
    }
}

/// The shared execution context holding every arena.
pub struct Context {
    pub domains: Vec<DomainData>,
    pub scripts: Vec<ScriptData>,
    pub objects: Vec<ObjectData>,
    pub classes: Vec<ClassData>,
    pub bytearrays: Vec<ByteArrayData>,
    pub strings: Vec<Vec<u8>>,
    pub namespaces: Vec<NamespaceDef>,
    /// The unique global domain, created with the context.
    pub globals: Domain,
    /// The ordinary public namespace (empty URI).
    pub public_namespace: usize,
    /// The public namespace reserved for the generic container type.
    pub vector_public_namespace: usize,
    /// The internal namespace reserved for the generic container type.
    pub vector_internal_namespace: usize,
}

/// The value stored under `q` in a property list, or `Undefined`.
pub open spec fn prop_or_undefined(entries: Seq<(QName, Value)>, q: QName) -> Value {
    match crate::property_map::lookup_key(entries, q) {
        Some(v) => v,
        None => Value::Undefined,
    }
}

/// The value of property `q` on object `o`.
pub open spec fn object_prop(ctx: Context, o: int, q: QName) -> Value {
    prop_or_undefined(ctx.objects@[o].props.entries@, q)
}

/// The context configuration (global domain and namespace handles) agrees.
pub open spec fn same_config(a: Context, b: Context) -> bool {
    &&& b.globals == a.globals
    &&& b.public_namespace == a.public_namespace
    &&& b.vector_public_namespace == a.vector_public_namespace
    &&& b.vector_internal_namespace == a.vector_internal_namespace
}

/// Nothing that name resolution looks at has changed: the domain records,
/// class and byte-array arenas, and the configuration.
pub open spec fn same_resolution_state(a: Context, b: Context) -> bool {
    &&& b.domains@ == a.domains@
    &&& b.classes@ == a.classes@
    &&& b.bytearrays@ == a.bytearrays@
    &&& same_config(a, b)
}

impl Context {
    /// Well-formedness of one domain record: the parent was created
    /// earlier, the memory handle and all stored script handles are in
    /// range.
    pub open spec fn domain_ok(self, d: int) -> bool {
        &&& (self.domains@[d].parent matches Some(p) ==> p.0 < d)
        &&& (self.domains@[d].domain_memory matches Some(m) ==> m.0 < self.bytearrays@.len())
        &&& scripts_in_range(self.domains@[d].defs.entries@, self.scripts@.len() as int)
    }

    /// Well-formedness of one script record: a materialized global scope
    /// handle is in range.
    pub open spec fn script_ok(self, s: int) -> bool {
        self.scripts@[s].globals matches Some(g) ==> g < self.objects@.len()
    }

    /// Context invariant: every record is well formed and the
    /// configuration handles are in range.
    pub open spec fn wf(self) -> bool {
        &&& (forall|d: int| 0 <= d < self.domains@.len() ==> #[trigger] self.domain_ok(d))
        &&& (forall|s: int| 0 <= s < self.scripts@.len() ==> #[trigger] self.script_ok(s))
        &&& self.globals.0 < self.domains@.len()
        &&& self.public_namespace < self.namespaces@.len()
        &&& self.vector_public_namespace < self.namespaces@.len()
        &&& self.vector_internal_namespace < self.namespaces@.len()
    }

    /// Well-formedness only looks at the domain, script, object and
    /// byte-array arenas and the configuration; interning tables may grow
    /// freely.
    pub proof fn lemma_wf_preserved(pre: Context, post: Context)
        requires
            pre.wf(),
            post.domains@ == pre.domains@,
            post.scripts@ == pre.scripts@,
            post.objects@ == pre.objects@,
            post.bytearrays@ == pre.bytearrays@,
            post.namespaces@.len() >= pre.namespaces@.len(),
            same_config(pre, post),
        ensures
            post.wf(),
    {
        assert forall|d: int| 0 <= d < post.domains@.len() implies post.domain_ok(d) by {
            assert(pre.domain_ok(d));
        }
        assert forall|s: int| 0 <= s < post.scripts@.len() implies post.script_ok(s) by {
            assert(pre.script_ok(s));
        }
    }

    /// A fresh context: the global domain (no parent, no memory yet) and
    /// the three reserved namespaces; every other arena empty.
    pub fn new() -> (r: Context)
        ensures
            r.wf(),
            r.domains@.len() == 1,
            r.domains@[0].parent is None,
            r.domains@[0].domain_memory is None,
            r.domains@[0].defs.entries@.len() == 0,
            r.domains@[0].classes.entries@.len() == 0,
            r.globals.0 == 0,
            r.scripts@.len() == 0,
            r.objects@.len() == 0,
            r.classes@.len() == 0,
            r.bytearrays@.len() == 0,
            r.strings@.len() == 0,
            r.namespaces@.len() == 3,
            r.public_namespace == 0,
            r.vector_public_namespace == 1,
            r.vector_internal_namespace == 2,
            r.namespaces@[0].uri@.len() == 0,
            r.namespaces@[0].is_package,
            r.namespaces@[1].uri@ == crate::name::vector_ns_uri(),
            r.namespaces@[1].is_package,
            r.namespaces@[2].uri@ == crate::name::vector_ns_uri(),
            !r.namespaces@[2].is_package,
    {
        let mut domains: Vec<DomainData> = Vec::new();
        domains.push(DomainData {
            defs: PropertyMap::new(),
            classes: PropertyMap::new(),
            parent: None,
            domain_memory: None,
        });
        let mut namespaces: Vec<NamespaceDef> = Vec::new();
        namespaces.push(NamespaceDef { uri: Vec::new(), is_package: true });
        namespaces.push(NamespaceDef { uri: crate::name::vector_ns_uri_vec(), is_package: true });
        namespaces.push(NamespaceDef { uri: crate::name::vector_ns_uri_vec(), is_package: false });
        Context {
            domains,
            scripts: Vec::new(),
            objects: Vec::new(),
            classes: Vec::new(),
            bytearrays: Vec::new(),
            strings: Vec::new(),
            namespaces,
            globals: Domain(0),
            public_namespace: 0,
            vector_public_namespace: 1,
            vector_internal_namespace: 2,
        }
    }

    /// Intern a byte string: the handle of the first equal entry, or a
    /// fresh entry at the end of the table.
    pub fn intern(&mut self, bytes: Vec<u8>) -> (r: usize)
        requires
            old(self).wf(),
        ensures
            final(self).wf(),
            r == intern_id(old(self).strings@, bytes@),
            intern_extends(old(self).strings@, bytes@, final(self).strings@),
            r < final(self).strings@.len(),
            final(self).strings@[r as int]@ == bytes@,
            same_resolution_state(*old(self), *final(self)),
            final(self).scripts@ == old(self).scripts@,
            final(self).objects@ == old(self).objects@,
            final(self).namespaces@ == old(self).namespaces@,
    {
        let mut i: usize = 0;
        while i < self.strings.len()
            invariant
                old(self).wf(),
                i <= self.strings@.len(),
                forall|j: int| 0 <= j < i ==> self.strings@[j]@ != bytes@,
                *self == *old(self),
            decreases self.strings@.len() - i,
        {
            if bytes_eq(&self.strings[i], &bytes) {
                proof {
                    lemma_find_str(self.strings@, bytes@);
                    Context::lemma_wf_preserved(*old(self), *self);
                }
                return i;
            }
            i += 1;
        }
        proof {
            lemma_find_str(self.strings@, bytes@);
        }
        let r = self.strings.len();
        self.strings.push(bytes);
        proof {
            Context::lemma_wf_preserved(*old(self), *self);
        }
        r
    }

    /// Intern a package namespace by URI: the handle of the first package
    /// namespace with this URI, or a fresh one at the end of the table.
    pub fn package_namespace(&mut self, uri: Vec<u8>) -> (r: usize)
        requires
            old(self).wf(),
        ensures
            final(self).wf(),
            ({
                let i = find_pkg_ns(old(self).namespaces@, uri@);
                if i >= 0 {
                    r == i && final(self).namespaces@ == old(self).namespaces@
                } else {
                    r == old(self).namespaces@.len()
                        && final(self).namespaces@.len() == old(self).namespaces@.len() + 1
                        && (forall|j: int| 0 <= j < old(self).namespaces@.len()
                            ==> final(self).namespaces@[j] == old(self).namespaces@[j])
                        && final(self).namespaces@[r as int].uri@ == uri@
                        && final(self).namespaces@[r as int].is_package
                }
            }),
            r < final(self).namespaces@.len(),
            final(self).namespaces@[r as int].is_package,
            final(self).namespaces@[r as int].uri@ == uri@,
            same_resolution_state(*old(self), *final(self)),
            final(self).scripts@ == old(self).scripts@,
            final(self).objects@ == old(self).objects@,
            final(self).strings@ == old(self).strings@,
    {
        let mut i: usize = 0;
        while i < self.namespaces.len()
            invariant
                old(self).wf(),
                i <= self.namespaces@.len(),
                forall|j: int| 0 <= j < i
                    ==> !(self.namespaces@[j].is_package && self.namespaces@[j].uri@ == uri@),
                *self == *old(self),
            decreases self.namespaces@.len() - i,
        {
            if self.namespaces[i].is_package && bytes_eq(&self.namespaces[i].uri, &uri) {
                proof {
                    lemma_find_pkg_ns(self.namespaces@, uri@);
                    Context::lemma_wf_preserved(*old(self), *self);
                }
                return i;
            }
            i += 1;
        }
        proof {
            lemma_find_pkg_ns(self.namespaces@, uri@);
        }
        let r = self.namespaces.len();
        self.namespaces.push(NamespaceDef { uri, is_package: true });
        proof {
            Context::lemma_wf_preserved(*old(self), *self);
        }
        r
    }

    /// Append a fresh object to the arena.
    pub fn alloc_object(&mut self, props: PropertyMap<Value>, kind: ObjectKind) -> (r: usize)
        requires
            old(self).wf(),
        ensures
            final(self).wf(),
            r == old(self).objects@.len(),
            final(self).objects@ == old(self).objects@.push(ObjectData { props, kind }),
            final(self).domains@ == old(self).domains@,
            final(self).scripts@ == old(self).scripts@,
            final(self).classes@ == old(self).classes@,
            final(self).bytearrays@ == old(self).bytearrays@,
            final(self).strings@ == old(self).strings@,
            final(self).namespaces@ == old(self).namespaces@,
            same_config(*old(self), *final(self)),
    {
        let r = self.objects.len();
        self.objects.push(ObjectData { props, kind });
        proof {
            assert forall|s: int| 0 <= s < self.scripts@.len() implies self.script_ok(s) by {
                assert(old(self).script_ok(s));
            }
            assert forall|d: int| 0 <= d < self.domains@.len() implies self.domain_ok(d) by {
                assert(old(self).domain_ok(d));
            }
        }
        r
    }

    /// Append fresh class metadata to the arena.
    pub fn alloc_class(&mut self, name: QName) -> (r: usize)
        requires
            old(self).wf(),
        ensures
            final(self).wf(),
            r == old(self).classes@.len(),
            final(self).classes@ == old(self).classes@.push(ClassData { name }),
            final(self).domains@ == old(self).domains@,
            final(self).scripts@ == old(self).scripts@,
            final(self).objects@ == old(self).objects@,
            final(self).bytearrays@ == old(self).bytearrays@,
            final(self).strings@ == old(self).strings@,
            final(self).namespaces@ == old(self).namespaces@,
            same_config(*old(self), *final(self)),
    {
        let r = self.classes.len();
        self.classes.push(ClassData { name });
        proof {
            assert forall|s: int| 0 <= s < self.scripts@.len() implies self.script_ok(s) by {
                assert(old(self).script_ok(s));
            }
            assert forall|d: int| 0 <= d < self.domains@.len() implies self.domain_ok(d) by {
                assert(old(self).domain_ok(d));
            }
        }
        r
    }

    /// The bytes of an interned string.
    pub fn string_at(&self, i: usize) -> (r: &Vec<u8>)
        requires
            i < self.strings@.len(),
        ensures
            r@ == self.strings@[i as int]@,
    {
        &self.strings[i]
    }

    /// The role of an object.
    pub fn object_kind(&self, o: usize) -> (r: ObjectKind)
        requires
            o < self.objects@.len(),
        ensures
            r == self.objects@[o as int].kind,
    {
        self.objects[o].kind
    }

    /// The registered name of a class.
    pub fn class_name(&self, c: usize) -> (r: QName)
        requires
            c < self.classes@.len(),
        ensures
            r == self.classes@[c as int].name,
    {
        self.classes[c].name
    }

    /// The value of property `name` on object `o`.
    pub fn get_property(&self, o: usize, name: QName) -> (r: Value)
        requires
            o < self.objects@.len(),
        ensures
            r == object_prop(*self, o as int, name),
    {
        match self.objects[o].props.get(name) {
            Some(v) => v,
            None => Value::Undefined,
        }
    }

    /// Specialize a class object with one type argument.  Only an object
    /// capable of specialization (a generic class) accepts it; the result
    /// is a fresh specialized class object, distinct on every call.
    pub fn apply(&mut self, class_obj: usize, type_arg: Value) -> (r: Result<usize, crate::domain::Error>)
        requires
            old(self).wf(),
            class_obj < old(self).objects@.len(),
        ensures
            final(self).wf(),
            if old(self).objects@[class_obj as int].kind is GenericClass {
                &&& r == Ok::<usize, crate::domain::Error>(old(self).objects@.len() as usize)
                &&& final(self).objects@.len() == old(self).objects@.len() + 1
                &&& (forall|j: int| 0 <= j < old(self).objects@.len()
                    ==> final(self).objects@[j] == old(self).objects@[j])
                &&& final(self).objects@[old(self).objects@.len() as int].kind
                    == (ObjectKind::SpecializedClass { base: class_obj, type_arg })
                &&& final(self).objects@[old(self).objects@.len() as int].props.entries@.len() == 0
                &&& final(self).domains@ == old(self).domains@
                &&& final(self).scripts@ == old(self).scripts@
                &&& final(self).classes@ == old(self).classes@
                &&& final(self).bytearrays@ == old(self).bytearrays@
                &&& final(self).strings@ == old(self).strings@
                &&& final(self).namespaces@ == old(self).namespaces@
                &&& same_config(*old(self), *final(self))
            } else {
                r == Err::<usize, crate::domain::Error>(crate::domain::Error::GenericTypeApplication)
                    && *final(self) == *old(self)
            },
    {
        match self.objects[class_obj].kind {
            ObjectKind::GenericClass => {
                let r = self.alloc_object(
                    PropertyMap::new(),
                    ObjectKind::SpecializedClass { base: class_obj, type_arg },
                );
                Ok(r)
            },
            _ => Err(crate::domain::Error::GenericTypeApplication),
        }
    }
}

/// The namespace handle `package_namespace` hands out for `uri` against
/// table `s`.
pub open spec fn pkg_ns_id(s: Seq<NamespaceDef>, uri: Seq<u8>) -> int {
    if find_pkg_ns(s, uri) >= 0 {
        find_pkg_ns(s, uri)
    } else {
        s.len() as int
    }
}

/// The handle interning `c` yields against a table that has already
/// interned `first` into `s`.
pub open spec fn intern_id_after(s: Seq<Vec<u8>>, first: Seq<u8>, c: Seq<u8>) -> int {
    if find_str(s, c) >= 0 {
        find_str(s, c)
    } else if find_str(s, first) < 0 && first == c {
        s.len() as int
    } else if find_str(s, first) < 0 {
        s.len() as int + 1
    } else {
        s.len() as int
    }
}

/// Interning against the extended table agrees with `intern_id_after`.
pub proof fn lemma_intern_after(pre: Seq<Vec<u8>>, first: Seq<u8>, post: Seq<Vec<u8>>, c: Seq<u8>)
    requires
        intern_extends(pre, first, post),
    ensures
        intern_id(post, c) == intern_id_after(pre, first, c),
{
    lemma_find_str(pre, first);
    lemma_find_str(pre, c);
    lemma_find_str(post, c);
    if find_str(pre, c) >= 0 {
        let i = find_str(pre, c);
        // the same entry matches at i in the extended table, none earlier
        assert(post[i]@ == c);
        if find_str(post, c) == -1 {
            assert(false);
        }
        let j = find_str(post, c);
        if j < i {
            assert(pre[j]@ == c);
            assert(false);
        }
        if j > i {
            assert(false);
        }
    } else if find_str(pre, first) < 0 && first == c {
        // the fresh entry is the only match
        assert(post[pre.len() as int]@ == c);
        if find_str(post, c) == -1 {
            assert(false);
        }
        let j = find_str(post, c);
        if j < pre.len() {
            assert(pre[j] == post[j]);
            assert(false);
        }
    } else if find_str(pre, first) < 0 {
        // table grew by one entry that does not match c
        if find_str(post, c) >= 0 {
            let j = find_str(post, c);
            if j < pre.len() {
                assert(pre[j] == post[j]);
                assert(false);
            }
            assert(post[j]@ == first);
            assert(false);
        }
    } else {
        // table unchanged and c absent
        if find_str(post, c) >= 0 {
            assert(false);
        }
    }
}

/// The text after the last `::` separator (the whole name if none).
pub open spec fn parsed_local(s: Seq<u8>) -> Seq<u8> {
    let k = crate::name::rfind_sep(s);
    if k >= 0 {
        s.subrange(k + 2, s.len() as int)
    } else {
        s
    }
}

/// The qualified name that parsing byte text `s` against `ctx` yields: the
/// part after the last `::` becomes the local name; the part before it
/// names a package namespace; with no separator the whole text is a local
/// name in the public namespace.
pub open spec fn parsed_qname(ctx: Context, s: Seq<u8>) -> QName {
    let k = crate::name::rfind_sep(s);
    if k >= 0 {
        QName {
            ns: pkg_ns_id(ctx.namespaces@, s.subrange(0, k)) as usize,
            local: intern_id(ctx.strings@, s.subrange(k + 2, s.len() as int)) as usize,
        }
    } else {
        QName { ns: ctx.public_namespace, local: intern_id(ctx.strings@, s) as usize }
    }
}

impl QName {
    /// Parse a qualified name written as text, `package::local` or plain
    /// `local`, interning the parts.
    pub fn from_qualified_name(ctx: &mut Context, bytes: Vec<u8>) -> (r: QName)
        requires
            old(ctx).wf(),
        ensures
            final(ctx).wf(),
            r == parsed_qname(*old(ctx), bytes@),
            intern_extends(old(ctx).strings@, parsed_local(bytes@), final(ctx).strings@),
            final(ctx).namespaces@.len() >= old(ctx).namespaces@.len(),
            (forall|j: int| 0 <= j < old(ctx).namespaces@.len()
                ==> final(ctx).namespaces@[j] == old(ctx).namespaces@[j]),
            same_resolution_state(*old(ctx), *final(ctx)),
            final(ctx).scripts@ == old(ctx).scripts@,
            final(ctx).objects@ == old(ctx).objects@,
    {
        proof {
            crate::name::lemma_rfind_sep_bounds(bytes@);
        }
        match crate::name::rfind_sep_vec(&bytes) {
            Some(k) => {
                let n = bytes.len();
                proof {
                    assert(k as int + 2 <= bytes@.len());
                }
                let uri = crate::util::copy_byte_range(&bytes, 0, k);
                let local_bytes = crate::util::copy_byte_range(&bytes, k + 2, n);
                let ns = ctx.package_namespace(uri);
                let local = ctx.intern(local_bytes);
                QName { ns, local }
            },
            None => {
                let local = ctx.intern(bytes);
                QName { ns: ctx.public_namespace, local }
            },
        }
    }
}

} // verus!
