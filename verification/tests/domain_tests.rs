//! Domain hierarchy, export, resolution and generic-name tests.

use avm_core::context::{Context, ObjectKind};
use avm_core::domain::{undefined_reference_message, Domain, Error, UNDEFINED_VARIABLE_ERROR_CODE};
use avm_core::name::{is_vector_local, strip_vector_inner, Multiname, QName};
use avm_core::property_map::PropertyMap;
use avm_core::script::Script;
use avm_core::value::Value;

fn intern(ctx: &mut Context, s: &str) -> usize {
    ctx.intern(s.as_bytes().to_vec())
}

fn script_with(ctx: &mut Context, entries: &[(QName, Value)]) -> Script {
    let mut traits: PropertyMap<Value> = PropertyMap::new();
    for (q, v) in entries {
        traits.insert(*q, *v);
    }
    Script::new(ctx, traits)
}

#[test]
fn vector_name_single_level_strip() {
    let nested = b"Vector.<Vector.<int>>".to_vec();
    assert!(is_vector_local(&nested));
    assert_eq!(strip_vector_inner(&nested), b"Vector.<int>".to_vec());

    let simple = b"Vector.<int>".to_vec();
    assert!(is_vector_local(&simple));
    assert_eq!(strip_vector_inner(&simple), b"int".to_vec());

    assert!(!is_vector_local(&b"Vector".to_vec()));
    assert!(!is_vector_local(&b"Vector.<int".to_vec()));
    assert!(!is_vector_local(&b"MyVector.<int>".to_vec()));
}

#[test]
fn undefined_name_at_root_fails_with_reference_error() {
    let mut ctx = Context::new();
    let root = ctx.globals;
    let foo = intern(&mut ctx, "Foo");
    let name = QName::new(ctx.public_namespace, foo);
    let mn = Multiname::from_qname(name);
    let r = root.find_defining_script(&ctx, &mn);
    assert_eq!(r, Err(Error::UndefinedReference { local: foo }));
    assert_eq!(UNDEFINED_VARIABLE_ERROR_CODE, 1065);
    let msg = undefined_reference_message(&ctx, foo);
    assert_eq!(msg, b"Error #1065: Variable Foo is not defined.".to_vec());
}

#[test]
fn uninitiated_multiname_is_its_own_error() {
    let ctx = Context::new();
    let root = ctx.globals;
    let mn = Multiname { ns_set: vec![ctx.public_namespace], local: None };
    let r = root.find_defining_script(&ctx, &mn);
    assert_eq!(r, Err(Error::UninitiatedMultiname));
}

#[test]
fn init_default_domain_memory_is_idempotent() {
    let mut ctx = Context::new();
    let root = ctx.globals;
    root.init_default_domain_memory(&mut ctx);
    let mem1 = root.domain_memory(&ctx);
    assert_eq!(mem1.length(&ctx), 1024);
    let count = ctx.bytearrays.len();
    root.init_default_domain_memory(&mut ctx);
    let mem2 = root.domain_memory(&ctx);
    assert_eq!(mem1, mem2);
    assert_eq!(ctx.bytearrays.len(), count);
}

#[test]
fn movie_domain_has_memory_and_parent() {
    let mut ctx = Context::new();
    let root = ctx.globals;
    let child = Domain::movie_domain(&mut ctx, root);
    assert_eq!(child.parent_domain(&ctx), Some(root));
    assert_eq!(root.parent_domain(&ctx), None);
    let mem = child.domain_memory(&ctx);
    assert_eq!(mem.length(&ctx), 1024);
    assert!(root.is_avm2_global_domain(&ctx));
    assert!(!child.is_avm2_global_domain(&ctx));
}

#[test]
fn child_export_shadows_parent() {
    let mut ctx = Context::new();
    let root = ctx.globals;
    let child = Domain::movie_domain(&mut ctx, root);
    let foo = intern(&mut ctx, "Foo");
    let name = QName::new(ctx.public_namespace, foo);
    let child_script = script_with(&mut ctx, &[(name, Value::Int(2))]);
    let root_script = script_with(&mut ctx, &[(name, Value::Int(1))]);
    // export into the child first: definitions are first-writer-wins
    // through the whole chain, so a child export after the parent's
    // would be a no-op
    child.export_definition(&mut ctx, name, child_script);
    root.export_definition(&mut ctx, name, root_script);
    assert_eq!(child.get_defined_value(&mut ctx, name), Ok(Value::Int(2)));
    assert_eq!(root.get_defined_value(&mut ctx, name), Ok(Value::Int(1)));
    let mn = Multiname::from_qname(name);
    let got = child.get_defining_script(&ctx, &mn).unwrap().unwrap();
    assert_eq!(got.0, name);
    assert_eq!(got.1, child_script);
}

#[test]
fn export_definition_is_idempotent() {
    let mut ctx = Context::new();
    let root = ctx.globals;
    let foo = intern(&mut ctx, "Foo");
    let name = QName::new(ctx.public_namespace, foo);
    let first = script_with(&mut ctx, &[(name, Value::Int(1))]);
    let second = script_with(&mut ctx, &[(name, Value::Int(2))]);
    root.export_definition(&mut ctx, name, first);
    root.export_definition(&mut ctx, name, second);
    root.export_definition(&mut ctx, name, first);
    let mn = Multiname::from_qname(name);
    let got = root.get_defining_script(&ctx, &mn).unwrap().unwrap();
    assert_eq!(got.1, first);
    assert_eq!(root.get_defined_value(&mut ctx, name), Ok(Value::Int(1)));
    assert!(root.has_definition(&ctx, name));
}

#[test]
fn export_class_is_last_writer_wins() {
    let mut ctx = Context::new();
    let root = ctx.globals;
    let foo = intern(&mut ctx, "Foo");
    let name = QName::new(ctx.public_namespace, foo);
    let c1 = ctx.alloc_class(name);
    let c2 = ctx.alloc_class(name);
    root.export_class(&mut ctx, c1);
    root.export_class(&mut ctx, c2);
    let mn = Multiname::from_qname(name);
    assert_eq!(root.get_class(&ctx, &mn), Ok(Some(c2)));
    assert_eq!(ctx.class_name(c2), name);
}

#[test]
fn get_class_delegates_to_parent() {
    let mut ctx = Context::new();
    let root = ctx.globals;
    let child = Domain::movie_domain(&mut ctx, root);
    let foo = intern(&mut ctx, "Foo");
    let name = QName::new(ctx.public_namespace, foo);
    let c1 = ctx.alloc_class(name);
    root.export_class(&mut ctx, c1);
    let mn = Multiname::from_qname(name);
    assert_eq!(child.get_class(&ctx, &mn), Ok(Some(c1)));
    let other = intern(&mut ctx, "Other");
    let mn2 = Multiname { ns_set: vec![ctx.public_namespace], local: Some(other) };
    assert_eq!(child.get_class(&ctx, &mn2), Ok(None));
}

#[test]
fn script_globals_are_materialized_once() {
    let mut ctx = Context::new();
    let root = ctx.globals;
    let foo = intern(&mut ctx, "Foo");
    let name = QName::new(ctx.public_namespace, foo);
    let script = script_with(&mut ctx, &[(name, Value::Int(7))]);
    root.export_definition(&mut ctx, name, script);
    let g1 = script.globals(&mut ctx);
    let g2 = script.globals(&mut ctx);
    assert_eq!(g1, g2);
    assert_eq!(root.get_defined_value(&mut ctx, name), Ok(Value::Int(7)));
    assert_eq!(script.globals(&mut ctx), g1);
}

#[test]
fn multiname_resolution_picks_first_matching_namespace() {
    let mut ctx = Context::new();
    let root = ctx.globals;
    let other_ns = ctx.package_namespace(b"pkg".to_vec());
    let foo = intern(&mut ctx, "Foo");
    let in_pkg = QName::new(other_ns, foo);
    let in_public = QName::new(ctx.public_namespace, foo);
    let s_pkg = script_with(&mut ctx, &[(in_pkg, Value::Int(10))]);
    let s_pub = script_with(&mut ctx, &[(in_public, Value::Int(20))]);
    root.export_definition(&mut ctx, in_pkg, s_pkg);
    root.export_definition(&mut ctx, in_public, s_pub);
    // the first stored entry whose namespace is in the candidate set wins
    let mn = Multiname { ns_set: vec![ctx.public_namespace, other_ns], local: Some(foo) };
    let got = root.get_defining_script(&ctx, &mn).unwrap().unwrap();
    assert_eq!(got.0, in_pkg);
    assert_eq!(got.1, s_pkg);
}

#[test]
fn vector_specialization_applies_generic_class() {
    let mut ctx = Context::new();
    let root = ctx.globals;

    // the generic container class, exported as plain `Vector` in the
    // vector-public namespace
    let vector_obj = ctx.alloc_object(PropertyMap::new(), ObjectKind::GenericClass);
    let vector_local = intern(&mut ctx, "Vector");
    let vector_name = QName::new(ctx.vector_public_namespace, vector_local);
    let vs = script_with(&mut ctx, &[(vector_name, Value::Object(vector_obj))]);
    root.export_definition(&mut ctx, vector_name, vs);

    // a concrete element class under the public namespace
    let string_obj = ctx.alloc_object(PropertyMap::new(), ObjectKind::PlainClass);
    let string_local = intern(&mut ctx, "String");
    let string_name = QName::new(ctx.public_namespace, string_local);
    let ss = script_with(&mut ctx, &[(string_name, Value::Object(string_obj))]);
    root.export_definition(&mut ctx, string_name, ss);

    let req = intern(&mut ctx, "Vector.<String>");
    let req_name = QName::new(ctx.public_namespace, req);
    let r1 = root.get_defined_value_handling_vector(&mut ctx, req_name);
    let o1 = match r1 {
        Ok(Value::Object(o)) => o,
        other => panic!("expected a specialized class object, got {:?}", other),
    };
    assert_eq!(
        ctx.object_kind(o1),
        ObjectKind::SpecializedClass { base: vector_obj, type_arg: Value::Object(string_obj) }
    );

    // the request is issued each time: a fresh specialized class value
    let r2 = root.get_defined_value_handling_vector(&mut ctx, req_name);
    let o2 = match r2 {
        Ok(Value::Object(o)) => o,
        other => panic!("expected a specialized class object, got {:?}", other),
    };
    assert_ne!(o1, o2);
    assert_eq!(
        ctx.object_kind(o2),
        ObjectKind::SpecializedClass { base: vector_obj, type_arg: Value::Object(string_obj) }
    );
}

#[test]
fn vector_specialization_base_failure_propagates() {
    let mut ctx = Context::new();
    let root = ctx.globals;
    // the inner type resolves, the base `Vector` does not
    let int_obj = ctx.alloc_object(PropertyMap::new(), ObjectKind::PlainClass);
    let int_local = intern(&mut ctx, "int");
    let int_name = QName::new(ctx.public_namespace, int_local);
    let is = script_with(&mut ctx, &[(int_name, Value::Object(int_obj))]);
    root.export_definition(&mut ctx, int_name, is);

    let req = intern(&mut ctx, "Vector.<int>");
    let req_name = QName::new(ctx.vector_public_namespace, req);
    let vector_local = intern(&mut ctx, "Vector");
    let r = root.get_defined_value_handling_vector(&mut ctx, req_name);
    assert_eq!(r, Err(Error::UndefinedReference { local: vector_local }));
}

#[test]
fn vector_specialization_rejects_non_generic_base() {
    let mut ctx = Context::new();
    let root = ctx.globals;
    // `Vector` resolves to a plain, non-generic class object
    let plain_obj = ctx.alloc_object(PropertyMap::new(), ObjectKind::PlainClass);
    let vector_local = intern(&mut ctx, "Vector");
    let vector_name = QName::new(ctx.vector_public_namespace, vector_local);
    let vs = script_with(&mut ctx, &[(vector_name, Value::Object(plain_obj))]);
    root.export_definition(&mut ctx, vector_name, vs);
    let int_obj = ctx.alloc_object(PropertyMap::new(), ObjectKind::PlainClass);
    let int_local = intern(&mut ctx, "int");
    let int_name = QName::new(ctx.public_namespace, int_local);
    let is = script_with(&mut ctx, &[(int_name, Value::Object(int_obj))]);
    root.export_definition(&mut ctx, int_name, is);

    let req = intern(&mut ctx, "Vector.<int>");
    let req_name = QName::new(ctx.public_namespace, req);
    let r = root.get_defined_value_handling_vector(&mut ctx, req_name);
    assert_eq!(r, Err(Error::GenericTypeApplication));
}

#[test]
fn non_generic_names_bypass_vector_handling() {
    let mut ctx = Context::new();
    let root = ctx.globals;
    let foo = intern(&mut ctx, "Foo");
    let name = QName::new(ctx.public_namespace, foo);
    let s = script_with(&mut ctx, &[(name, Value::Int(5))]);
    root.export_definition(&mut ctx, name, s);
    assert_eq!(
        root.get_defined_value_handling_vector(&mut ctx, name),
        Ok(Value::Int(5))
    );
}

#[test]
fn qualified_name_parsing_interns_package_and_local() {
    let mut ctx = Context::new();
    let q = QName::from_qualified_name(&mut ctx, b"flash.display::Sprite".to_vec());
    assert_eq!(ctx.string_at(q.local), &b"Sprite".to_vec());
    assert!(ctx.namespaces[q.ns].is_package);
    assert_eq!(ctx.namespaces[q.ns].uri, b"flash.display".to_vec());

    let plain = QName::from_qualified_name(&mut ctx, b"Sprite".to_vec());
    assert_eq!(plain.ns, ctx.public_namespace);
    assert_eq!(ctx.string_at(plain.local), &b"Sprite".to_vec());
    // interning is canonical: the same text yields the same handle
    assert_eq!(q.local, plain.local);
}

#[test]
fn set_domain_memory_replaces_buffer() {
    let mut ctx = Context::new();
    let root = ctx.globals;
    root.init_default_domain_memory(&mut ctx);
    let first = root.domain_memory(&ctx);
    let fresh = avm_core::context::ByteArrayObject::with_length(&mut ctx, 16);
    root.set_domain_memory(&mut ctx, fresh);
    let now = root.domain_memory(&ctx);
    assert_eq!(now, fresh);
    assert_ne!(now, first);
    assert_eq!(now.length(&ctx), 16);
    fresh.set_length(&mut ctx, 2048);
    assert_eq!(now.length(&ctx), 2048);
}
