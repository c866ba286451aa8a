//! The transactor: tempid resolution, upserts, atomicity, and the
//! install/alter path of the schema.

use mentat::attributes::{Attribute, AttributeAlteration, Unique};
use mentat::entids;
use mentat::errors::CoreError;
use mentat::metadata::update_attribute_map_from_entid_triples;
use mentat::schema::Schema;
use mentat::store::{Assertion, Op, OpAttribute, OpEntity, Store};
use mentat::values::{Keyword, RawValue, TypedValue, ValueType};

fn attr(value_type: ValueType) -> Attribute {
    Attribute {
        value_type,
        multival: false,
        unique: None,
        index: false,
        fulltext: false,
        component: false,
        no_history: false,
    }
}

fn person_store() -> Store {
    let mut schema = Schema::default();
    schema.ident_map.push((Keyword::namespaced("person", "name"), 200));
    let mut name = attr(ValueType::String);
    name.unique = Some(Unique::Identity);
    name.index = true;
    schema.attribute_map.push((200, name));
    schema.ident_map.push((Keyword::namespaced("person", "age"), 201));
    schema.attribute_map.push((201, attr(ValueType::Long)));
    Store::new(schema)
}

fn add_tempid(t: &str, ns: &str, name: &str, v: RawValue) -> Assertion {
    Assertion {
        op: Op::Add,
        e: OpEntity::Tempid(t.to_string()),
        a: OpAttribute::Ident(Keyword::namespaced(ns, name)),
        v,
    }
}

#[test]
fn tempids_resolve_exactly_once_to_positive_entids() {
    let mut store = person_store();
    let report = store
        .transact(
            vec![
                add_tempid("x", "person", "name", RawValue::Text("Alice".to_string())),
                add_tempid("x", "person", "age", RawValue::Long(30)),
                add_tempid("y", "person", "name", RawValue::Text("Bob".to_string())),
            ],
            10,
        )
        .expect("successful transaction");
    assert_eq!(report.tempids.len(), 2);
    let mut seen = vec![];
    for (t, e) in &report.tempids {
        assert!(*e > 0);
        assert!(!seen.contains(t));
        seen.push(t.clone());
    }
    assert!(seen.contains(&"x".to_string()));
    assert!(seen.contains(&"y".to_string()));
}

#[test]
fn upsert_through_identity_attribute() {
    let mut store = person_store();
    let first = store
        .transact(
            vec![add_tempid("x", "person", "name", RawValue::Text("Alice".to_string()))],
            10,
        )
        .expect("successful transaction");
    let alice = first.tempids[0].1;

    // A later tempid asserting the same identity value resolves to the
    // same entity.
    let second = store
        .transact(
            vec![
                add_tempid("who", "person", "name", RawValue::Text("Alice".to_string())),
                add_tempid("who", "person", "age", RawValue::Long(30)),
            ],
            20,
        )
        .expect("successful transaction");
    assert_eq!(second.tempids.len(), 1);
    assert_eq!(second.tempids[0].1, alice);
}

#[test]
fn transactions_are_ordered_and_atomic() {
    let mut store = person_store();
    let r1 = store
        .transact(
            vec![add_tempid("x", "person", "age", RawValue::Long(1))],
            100,
        )
        .expect("successful transaction");
    let r2 = store
        .transact(
            vec![add_tempid("y", "person", "age", RawValue::Long(2))],
            // An earlier clock reading: the instant must not decrease.
            50,
        )
        .expect("successful transaction");
    assert_eq!(r2.tx_id, r1.tx_id + 1);
    assert!(r2.tx_instant >= r1.tx_instant);

    // A failing transaction leaves the store untouched.
    let datoms_before = store.datoms.len();
    let next_tx_before = store.next_tx;
    let err = store.transact(
        vec![
            add_tempid("z", "person", "age", RawValue::Long(3)),
            add_tempid("z", "person", "age", RawValue::Text("three".to_string())),
        ],
        200,
    );
    match err {
        Err(CoreError::BadValuePair(_, ValueType::Long)) => {}
        other => panic!("expected a bad value pair, got {:?}", other),
    }
    assert_eq!(store.datoms.len(), datoms_before);
    assert_eq!(store.next_tx, next_tx_before);
}

#[test]
fn unknown_attributes_and_idents_are_refused() {
    let mut store = person_store();
    match store.transact(
        vec![add_tempid("x", "no", "where", RawValue::Long(1))],
        10,
    ) {
        Err(CoreError::UnrecognizedIdent(s)) => assert_eq!(s, ":no/where"),
        other => panic!("expected an unrecognized ident, got {:?}", other),
    }
    match store.transact(
        vec![Assertion {
            op: Op::Add,
            e: OpEntity::Entid(-4),
            a: OpAttribute::Ident(Keyword::namespaced("person", "age")),
            v: RawValue::Long(1),
        }],
        10,
    ) {
        Err(CoreError::UnrecognizedEntid(-4)) => {}
        other => panic!("expected an unrecognized entid, got {:?}", other),
    }
}

#[test]
fn cardinality_one_replaces_and_retraction_removes() {
    let mut store = person_store();
    let r = store
        .transact(
            vec![add_tempid("x", "person", "age", RawValue::Long(1))],
            10,
        )
        .expect("successful transaction");
    let x = r.tempids[0].1;
    store
        .transact(
            vec![Assertion {
                op: Op::Add,
                e: OpEntity::Entid(x),
                a: OpAttribute::Ident(Keyword::namespaced("person", "age")),
                v: RawValue::Long(2),
            }],
            20,
        )
        .expect("successful transaction");
    let ages: Vec<&TypedValue> = store
        .datoms
        .iter()
        .filter(|d| d.e == x && d.a == 201)
        .map(|d| &d.v)
        .collect();
    assert_eq!(ages, vec![&TypedValue::Long(2)]);

    store
        .transact(
            vec![Assertion {
                op: Op::Retract,
                e: OpEntity::Entid(x),
                a: OpAttribute::Ident(Keyword::namespaced("person", "age")),
                v: RawValue::Long(2),
            }],
            30,
        )
        .expect("successful transaction");
    assert!(!store.datoms.iter().any(|d| d.e == x && d.a == 201));
}

#[test]
fn install_and_alter_attributes_from_triples() {
    // Install :foo/term as a fulltext string attribute.
    let mut attribute_map: Vec<(i64, Attribute)> = Vec::new();
    let assertions = vec![
        (97, entids::DB_VALUE_TYPE, TypedValue::Ref(entids::DB_TYPE_STRING)),
        (97, entids::DB_FULLTEXT, TypedValue::Boolean(true)),
        (97, entids::DB_INDEX, TypedValue::Boolean(true)),
        (97, entids::DB_CARDINALITY, TypedValue::Ref(entids::DB_CARDINALITY_MANY)),
    ];
    let report = update_attribute_map_from_entid_triples(&mut attribute_map, &assertions)
        .expect("installation to succeed");
    assert_eq!(report.attributes_installed, vec![97]);
    assert!(report.attributes_altered.is_empty());
    let installed = attribute_map
        .iter()
        .find(|(e, _)| *e == 97)
        .map(|(_, a)| *a)
        .expect("attribute to be installed");
    assert_eq!(installed.value_type, ValueType::String);
    assert!(installed.fulltext);
    assert!(installed.index);
    assert!(installed.multival);

    // Alter its cardinality back to one.
    let alteration = vec![(
        97,
        entids::DB_CARDINALITY,
        TypedValue::Ref(entids::DB_CARDINALITY_ONE),
    )];
    let report = update_attribute_map_from_entid_triples(&mut attribute_map, &alteration)
        .expect("alteration to succeed");
    assert!(report.attributes_installed.is_empty());
    assert_eq!(report.attributes_altered.len(), 1);
    assert_eq!(report.attributes_altered[0].0, 97);
    assert!(report.attributes_altered[0]
        .1
        .contains(&AttributeAlteration::Cardinality));

    // Altering the value type is forbidden.
    let bad = vec![(97, entids::DB_VALUE_TYPE, TypedValue::Ref(entids::DB_TYPE_LONG))];
    match update_attribute_map_from_entid_triples(&mut attribute_map, &bad) {
        Err(CoreError::BadSchemaAssertion(m)) => {
            assert_eq!(m, "Schema alteration must not set :db/valueType");
        }
        other => panic!("expected a schema assertion error, got {:?}", other),
    }

    // An install without a value type is refused.
    let mut fresh: Vec<(i64, Attribute)> = Vec::new();
    let incomplete = vec![(98, entids::DB_INDEX, TypedValue::Boolean(true))];
    match update_attribute_map_from_entid_triples(&mut fresh, &incomplete) {
        Err(CoreError::BadSchemaAssertion(m)) => {
            assert_eq!(m, "Schema attribute for new attribute does not set :db/valueType");
        }
        other => panic!("expected a schema assertion error, got {:?}", other),
    }
}

#[test]
fn schema_from_symbolic_triples() {
    let ident_map = vec![
        (Keyword::namespaced("db", "valueType"), entids::DB_VALUE_TYPE),
        (Keyword::namespaced("db", "index"), entids::DB_INDEX),
        (Keyword::namespaced("db.type", "string"), entids::DB_TYPE_STRING),
        (Keyword::namespaced("foo", "bar"), 97),
    ];
    let assertions = vec![
        (
            Keyword::namespaced("foo", "bar"),
            Keyword::namespaced("db", "valueType"),
            TypedValue::Ref(entids::DB_TYPE_STRING),
        ),
        (
            Keyword::namespaced("foo", "bar"),
            Keyword::namespaced("db", "index"),
            TypedValue::Boolean(true),
        ),
    ];
    let schema = Schema::from_ident_map_and_triples(ident_map, assertions)
        .expect("schema to build");
    let a = schema
        .attribute_for_entid(97)
        .expect("attribute to be installed");
    assert_eq!(a.value_type, ValueType::String);
    assert!(a.index);
    // An unknown ident in the triples is refused.
    let missing = Schema::from_ident_map_and_triples(
        vec![(Keyword::namespaced("db", "valueType"), entids::DB_VALUE_TYPE)],
        vec![(
            Keyword::namespaced("no", "where"),
            Keyword::namespaced("db", "valueType"),
            TypedValue::Ref(entids::DB_TYPE_STRING),
        )],
    );
    match missing {
        Err(CoreError::UnrecognizedIdent(s)) => assert_eq!(s, ":no/where"),
        other => panic!("expected an unrecognized ident, got {:?}", other),
    }
}

#[test]
fn lookup_refs_name_entities_by_unique_value() {
    let mut store = person_store();
    let first = store
        .transact(
            vec![add_tempid("x", "person", "name", RawValue::Text("Alice".to_string()))],
            10,
        )
        .expect("successful transaction");
    let alice = first.tempids[0].1;

    // [:db/add [(:person/name "Alice")] :person/age 30]
    store
        .transact(
            vec![Assertion {
                op: Op::Add,
                e: OpEntity::LookupRef(
                    Keyword::namespaced("person", "name"),
                    RawValue::Text("Alice".to_string()),
                ),
                a: OpAttribute::Ident(Keyword::namespaced("person", "age")),
                v: RawValue::Long(30),
            }],
            20,
        )
        .expect("successful transaction");
    assert!(store
        .datoms
        .iter()
        .any(|d| d.e == alice && d.a == 201 && d.v == TypedValue::Long(30)));

    // A lookup ref over a non-unique attribute is refused.
    match store.transact(
        vec![Assertion {
            op: Op::Add,
            e: OpEntity::LookupRef(
                Keyword::namespaced("person", "age"),
                RawValue::Long(30),
            ),
            a: OpAttribute::Ident(Keyword::namespaced("person", "age")),
            v: RawValue::Long(31),
        }],
        30,
    ) {
        Err(CoreError::InvalidArgument(sym, expected, _)) => {
            assert_eq!(sym, ":person/age");
            assert_eq!(expected, "a unique attribute");
        }
        other => panic!("expected an invalid argument, got {:?}", other),
    }

    // A lookup ref no entity matches is refused.
    match store.transact(
        vec![Assertion {
            op: Op::Add,
            e: OpEntity::LookupRef(
                Keyword::namespaced("person", "name"),
                RawValue::Text("Nobody".to_string()),
            ),
            a: OpAttribute::Ident(Keyword::namespaced("person", "age")),
            v: RawValue::Long(1),
        }],
        40,
    ) {
        Err(CoreError::UnrecognizedIdent(s)) => assert_eq!(s, ":person/name"),
        other => panic!("expected an unrecognized ident, got {:?}", other),
    }
}
