//! The value model, the registry round trip, schema-directed coercion,
//! and the rendering helpers.

use mentat::errors::CoreError;
use mentat::render::{render_i64, render_keyword, render_u64};
use mentat::schema::{Schema, SchemaBuilding, SchemaTypeChecking};
use mentat::values::{Keyword, RawValue, TypedValue, ValueType, ValueTypeSet};

fn uuid_schema() -> Schema {
    let mut schema = Schema::default();
    schema.ident_map.push((Keyword::namespaced("foo", "uuid"), 98));
    schema.ident_map.push((Keyword::namespaced("foo", "ref"), 99));
    schema
}

#[test]
fn coercion_passes_matching_types_through() {
    let schema = uuid_schema();
    // A uuid value under a uuid attribute passes through.
    let u: u128 = 0xcf62d552_6569_4d1b_b667_04703041dfc4;
    match schema.to_typed_value(RawValue::Uuid(u), ValueType::Uuid) {
        Ok(TypedValue::Uuid(x)) => assert_eq!(x, u),
        other => panic!("expected a uuid, got {:?}", other),
    }
    match schema.to_typed_value(RawValue::Boolean(true), ValueType::Boolean) {
        Ok(TypedValue::Boolean(true)) => {}
        other => panic!("expected a boolean, got {:?}", other),
    }
    match schema.to_typed_value(RawValue::Text("hello".to_string()), ValueType::String) {
        Ok(TypedValue::String(s)) => assert_eq!(s, "hello"),
        other => panic!("expected a string, got {:?}", other),
    }
}

#[test]
fn coercion_rejects_mismatched_types() {
    let schema = uuid_schema();
    // An integer under a uuid attribute is a bad value pair.
    match schema.to_typed_value(RawValue::Long(9), ValueType::Uuid) {
        Err(CoreError::BadValuePair(RawValue::Long(9), ValueType::Uuid)) => {}
        other => panic!("expected a bad value pair, got {:?}", other),
    }
    // A big integer inhabits no core type.
    match schema.to_typed_value(RawValue::BigInteger("12345678901234567890123".to_string()), ValueType::Long) {
        Err(CoreError::BadValuePair(_, ValueType::Long)) => {}
        other => panic!("expected a bad value pair, got {:?}", other),
    }
    // A list inhabits no core type either.
    match schema.to_typed_value(RawValue::List(vec![]), ValueType::String) {
        Err(CoreError::BadValuePair(_, ValueType::String)) => {}
        other => panic!("expected a bad value pair, got {:?}", other),
    }
}

#[test]
fn coercion_interprets_refs() {
    let schema = uuid_schema();
    // A long coerces to a ref.
    match schema.to_typed_value(RawValue::Long(1234), ValueType::Ref) {
        Ok(TypedValue::Ref(1234)) => {}
        other => panic!("expected a ref, got {:?}", other),
    }
    // A known keyword resolves through the registry.
    match schema.to_typed_value(
        RawValue::Keyword(Keyword::namespaced("foo", "uuid")),
        ValueType::Ref,
    ) {
        Ok(TypedValue::Ref(98)) => {}
        other => panic!("expected entid 98, got {:?}", other),
    }
    // An unknown keyword is an unrecognized ident.
    match schema.to_typed_value(
        RawValue::Keyword(Keyword::namespaced("no", "where")),
        ValueType::Ref,
    ) {
        Err(CoreError::UnrecognizedIdent(s)) => assert_eq!(s, ":no/where"),
        other => panic!("expected an unrecognized ident, got {:?}", other),
    }
}

#[test]
fn accepted_coercions_match_the_expected_type() {
    let schema = uuid_schema();
    // Every accepted value belongs to the expected type.
    let cases: Vec<(RawValue, ValueType)> = vec![
        (RawValue::Boolean(false), ValueType::Boolean),
        (RawValue::Long(7), ValueType::Long),
        (RawValue::Long(7), ValueType::Ref),
        (RawValue::Double(0x400921fb54442d18), ValueType::Double),
        (RawValue::Text("x".to_string()), ValueType::String),
        (RawValue::Keyword(Keyword::namespaced("foo", "uuid")), ValueType::Keyword),
        (RawValue::Keyword(Keyword::namespaced("foo", "uuid")), ValueType::Ref),
        (RawValue::Uuid(17), ValueType::Uuid),
        (RawValue::Instant(1493741238320000), ValueType::Instant),
        (RawValue::Bytes(vec![1, 2, 3]), ValueType::Bytes),
    ];
    for (raw, t) in cases {
        let tv = schema.to_typed_value(raw, t).expect("coercion to succeed");
        assert!(tv.matches_type(t));
    }
}

#[test]
fn registry_round_trips_installed_idents() {
    let mut schema = Schema::default();
    assert!(schema.install_ident(Keyword::namespaced("foo", "bar"), 97));
    assert!(schema.install_ident(Keyword::namespaced("foo", "baz"), 98));
    // Write-once: both directions refuse a second installation.
    assert!(!schema.install_ident(Keyword::namespaced("foo", "bar"), 99));
    assert!(!schema.install_ident(Keyword::namespaced("other", "name"), 97));

    let kw = Keyword::namespaced("foo", "bar");
    let e = schema.get_entid(&kw).expect("entid");
    assert_eq!(e, 97);
    let back = schema.get_ident(e).expect("ident");
    assert_eq!(back, &kw);

    match schema.require_entid(&Keyword::namespaced("no", "where")) {
        Err(CoreError::UnrecognizedIdent(s)) => assert_eq!(s, ":no/where"),
        other => panic!("expected an unrecognized ident, got {:?}", other),
    }
    match schema.require_ident(12345) {
        Err(CoreError::UnrecognizedEntid(12345)) => {}
        other => panic!("expected an unrecognized entid, got {:?}", other),
    }

    // Removal takes both directions out at once.
    schema.remove_ident(97);
    assert!(schema.get_ident(97).is_none());
    assert!(schema.get_entid(&kw).is_none());
    assert!(schema.get_ident(98).is_some());
}

#[test]
fn rendering_keywords_and_integers() {
    assert_eq!(render_keyword(&Keyword::namespaced("foo", "bar")), ":foo/bar");
    assert_eq!(render_keyword(&Keyword::plain("bare")), ":bare");
    assert_eq!(render_u64(0), "0");
    assert_eq!(render_u64(90210), "90210");
    assert_eq!(render_i64(-42), "-42");
    assert_eq!(render_i64(7), "7");
}

#[test]
fn typed_value_equality_is_structural() {
    let a = TypedValue::String("hello".to_string());
    let b = TypedValue::String("hello".to_string());
    let c = TypedValue::String("world".to_string());
    assert!(a.same(&b));
    assert!(!a.same(&c));
    assert!(!a.same(&TypedValue::Long(1)));
    // Doubles compare by bit pattern, so NaN is comparable to itself.
    let nan_bits: u64 = 0x7ff8_0000_0000_0000;
    assert!(TypedValue::Double(nan_bits).same(&TypedValue::Double(nan_bits)));
    assert!(!TypedValue::Double(nan_bits).same(&TypedValue::Double(0)));
}

#[test]
fn value_type_sets_behave_like_sets() {
    let any = ValueTypeSet::any();
    let none = ValueTypeSet::none();
    let long = ValueTypeSet::of_one(ValueType::Long);
    let numeric = ValueTypeSet::of_numeric();
    assert!(any.contains(ValueType::Bytes));
    assert!(!none.contains(ValueType::Bytes));
    assert!(long.contains(ValueType::Long));
    assert!(!long.contains(ValueType::Double));
    assert!(numeric.contains(ValueType::Double));
    assert!(long.is_subset(&numeric));
    assert!(!numeric.is_subset(&long));
    assert!(long.intersect(&numeric).contains(ValueType::Long));
    assert!(long.intersect(&ValueTypeSet::of_one(ValueType::Double)).is_empty());
    assert!(!long.is_empty());
}
