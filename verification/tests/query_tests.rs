//! Transacting data and running queries end to end against the
//! in-memory store.

use mentat::attributes::Attribute;
use mentat::errors::CoreError;
use mentat::projector::QueryResults;
use mentat::entids;
use mentat::query::{
    AggregateOp, Direction, Element, FindSpec, FnArg, OrderBy, ParsedQuery, Pattern,
    PatternNonValuePlace, PatternValuePlace, PredicateOp, WhereClause,
};
use mentat::schema::Schema;
use mentat::store::{Assertion, Op, OpAttribute, OpEntity, Store};
use mentat::values::{Keyword, RawValue, TypedValue, ValueType};

fn attr(value_type: ValueType) -> Attribute {
    Attribute {
        value_type,
        multival: false,
        unique: None,
        index: false,
        fulltext: false,
        component: false,
        no_history: false,
    }
}

fn monster_store() -> Store {
    let mut schema = Schema::default();
    schema.ident_map.push((Keyword::namespaced("monster", "heads"), 100));
    schema.attribute_map.push((100, attr(ValueType::Long)));
    schema.ident_map.push((Keyword::namespaced("monster", "name"), 101));
    schema.attribute_map.push((101, attr(ValueType::String)));
    Store::new(schema)
}

fn add(tempid: &str, attr_ns: &str, attr_name: &str, v: RawValue) -> Assertion {
    Assertion {
        op: Op::Add,
        e: OpEntity::Tempid(tempid.to_string()),
        a: OpAttribute::Ident(Keyword::namespaced(attr_ns, attr_name)),
        v,
    }
}

fn heads_query(with_monster: bool) -> ParsedQuery {
    ParsedQuery {
        find: FindSpec::FindScalar(Element::Aggregate(AggregateOp::Sum, "?heads".to_string())),
        in_vars: vec![],
        with_vars: if with_monster {
            vec!["?monster".to_string()]
        } else {
            vec![]
        },
        where_clauses: vec![WhereClause::Pattern(Pattern {
            entity: PatternNonValuePlace::Variable("?monster".to_string()),
            attribute: PatternNonValuePlace::Ident(Keyword::namespaced("monster", "heads")),
            value: PatternValuePlace::Variable("?heads".to_string()),
            tx: PatternNonValuePlace::Placeholder,
        })],
        order: vec![],
    }
}

#[test]
fn test_monster_head_aggregates() {
    let mut store = monster_store();
    let assertions = vec![
        add("a", "monster", "name", RawValue::Text("Cerberus".to_string())),
        add("a", "monster", "heads", RawValue::Long(3)),
        add("b", "monster", "name", RawValue::Text("Medusa".to_string())),
        add("b", "monster", "heads", RawValue::Long(1)),
        add("c", "monster", "name", RawValue::Text("Cyclops".to_string())),
        add("c", "monster", "heads", RawValue::Long(1)),
        add("d", "monster", "name", RawValue::Text("Chimera".to_string())),
        add("d", "monster", "heads", RawValue::Long(1)),
    ];
    store.transact(assertions, 1).expect("transacted");

    // Without :with, duplicate rows are eliminated before aggregation.
    match store.q_once(heads_query(false), vec![]) {
        Ok(QueryResults::Scalar(Some(TypedValue::Long(4)))) => {}
        other => panic!("Unexpected result {:?}", other),
    }
    // With :with ?monster, each monster contributes its heads.
    match store.q_once(heads_query(true), vec![]) {
        Ok(QueryResults::Scalar(Some(TypedValue::Long(6)))) => {}
        other => panic!("Unexpected result {:?}", other),
    }
}

#[test]
fn test_unbound_inputs() {
    // A query declaring `:in ?e` executed without binding ?e.
    let mut schema = Schema::default();
    schema.ident_map.push((Keyword::namespaced("db", "ident"), 1));
    schema.attribute_map.push((1, attr(ValueType::Keyword)));
    let store = Store::new(schema);
    let q = ParsedQuery {
        find: FindSpec::FindScalar(Element::Variable("?i".to_string())),
        in_vars: vec!["?e".to_string()],
        with_vars: vec![],
        where_clauses: vec![WhereClause::Pattern(Pattern {
            entity: PatternNonValuePlace::Variable("?e".to_string()),
            attribute: PatternNonValuePlace::Ident(Keyword::namespaced("db", "ident")),
            value: PatternValuePlace::Variable("?i".to_string()),
            tx: PatternNonValuePlace::Placeholder,
        })],
        order: vec![],
    };
    match store.q_once(q, vec![]) {
        Err(CoreError::UnboundVariables(vars)) => {
            assert_eq!(vars, vec!["?e".to_string()]);
        }
        other => panic!("Expected UnboundVariables variant, got {:?}", other),
    }
}

#[test]
fn test_null_aggregates() {
    // A row where max is over zero groups is rejected entirely, not
    // returned as [0, null].
    let mut store = monster_store();
    store
        .transact(
            vec![add("a", "monster", "heads", RawValue::Long(3))],
            1,
        )
        .expect("transacted");
    let q = ParsedQuery {
        find: FindSpec::FindTuple(vec![
            Element::Aggregate(AggregateOp::Count, "?heads".to_string()),
            Element::Aggregate(AggregateOp::Max, "?heads".to_string()),
        ]),
        in_vars: vec![],
        with_vars: vec![],
        where_clauses: vec![
            WhereClause::Pattern(Pattern {
                entity: PatternNonValuePlace::Variable("?monster".to_string()),
                attribute: PatternNonValuePlace::Ident(Keyword::namespaced(
                    "monster", "heads",
                )),
                value: PatternValuePlace::Variable("?heads".to_string()),
                tx: PatternNonValuePlace::Placeholder,
            }),
            // Nothing has more than five heads.
            WhereClause::Pred(
                PredicateOp::Gt,
                vec![
                    FnArg::Variable("?heads".to_string()),
                    FnArg::EntidOrInteger(5),
                ],
            ),
        ],
        order: vec![],
    };
    match store.q_once(q, vec![]) {
        Ok(QueryResults::Tuple(None)) => {}
        other => panic!("expected no results, got {:?}", other),
    }
}

#[test]
fn count_alone_over_nothing_is_zero() {
    let store = monster_store();
    let q = ParsedQuery {
        find: FindSpec::FindScalar(Element::Aggregate(AggregateOp::Count, "?heads".to_string())),
        in_vars: vec![],
        with_vars: vec![],
        where_clauses: vec![WhereClause::Pattern(Pattern {
            entity: PatternNonValuePlace::Variable("?monster".to_string()),
            attribute: PatternNonValuePlace::Ident(Keyword::namespaced("monster", "heads")),
            value: PatternValuePlace::Variable("?heads".to_string()),
            tx: PatternNonValuePlace::Placeholder,
        })],
        order: vec![],
    };
    match store.q_once(q, vec![]) {
        Ok(QueryResults::Scalar(Some(TypedValue::Long(0)))) => {}
        other => panic!("expected a zero count, got {:?}", other),
    }
}

#[test]
fn collapsed_plans_return_the_empty_shape() {
    // A query over a long attribute with a double type requirement:
    // the algebrizer proves it empty, execution returns an empty
    // relation.
    let mut store = monster_store();
    store
        .transact(vec![add("a", "monster", "heads", RawValue::Long(3))], 1)
        .expect("transacted");
    let q = ParsedQuery {
        find: FindSpec::FindRel(vec![Element::Variable("?e".to_string())]),
        in_vars: vec![],
        with_vars: vec![],
        where_clauses: vec![
            WhereClause::Pattern(Pattern {
                entity: PatternNonValuePlace::Variable("?e".to_string()),
                attribute: PatternNonValuePlace::Ident(Keyword::namespaced(
                    "monster", "heads",
                )),
                value: PatternValuePlace::Variable("?v".to_string()),
                tx: PatternNonValuePlace::Placeholder,
            }),
            WhereClause::TypeReq("?v".to_string(), ValueType::Double),
        ],
        order: vec![],
    };
    match store.q_once(q, vec![]) {
        Ok(QueryResults::Rel(rows)) => assert_eq!(rows.len(), 0),
        other => panic!("expected an empty relation, got {:?}", other),
    }
}

#[test]
fn relations_tuples_collections_and_scalars() {
    let mut store = monster_store();
    store
        .transact(
            vec![
                add("a", "monster", "name", RawValue::Text("Cerberus".to_string())),
                add("a", "monster", "heads", RawValue::Long(3)),
                add("b", "monster", "name", RawValue::Text("Medusa".to_string())),
                add("b", "monster", "heads", RawValue::Long(1)),
            ],
            1,
        )
        .expect("transacted");
    let pattern = WhereClause::Pattern(Pattern {
        entity: PatternNonValuePlace::Variable("?m".to_string()),
        attribute: PatternNonValuePlace::Ident(Keyword::namespaced("monster", "name")),
        value: PatternValuePlace::Variable("?name".to_string()),
        tx: PatternNonValuePlace::Placeholder,
    });
    // Relation: many rows of tuples.
    let rel = ParsedQuery {
        find: FindSpec::FindRel(vec![
            Element::Variable("?m".to_string()),
            Element::Variable("?name".to_string()),
        ]),
        in_vars: vec![],
        with_vars: vec![],
        where_clauses: vec![pattern.clone()],
        order: vec![],
    };
    match store.q_once(rel, vec![]) {
        Ok(QueryResults::Rel(rows)) => {
            assert_eq!(rows.len(), 2);
            assert_eq!(rows[0].len(), 2);
        }
        other => panic!("Expected rel, got {:?}", other),
    }
    // Collection: many single values.
    let coll = ParsedQuery {
        find: FindSpec::FindColl(Element::Variable("?name".to_string())),
        in_vars: vec![],
        with_vars: vec![],
        where_clauses: vec![pattern.clone()],
        order: vec![],
    };
    match store.q_once(coll, vec![]) {
        Ok(QueryResults::Coll(vals)) => assert_eq!(vals.len(), 2),
        other => panic!("Expected coll, got {:?}", other),
    }
    // Tuple: at most one row.
    let tuple = ParsedQuery {
        find: FindSpec::FindTuple(vec![Element::Variable("?name".to_string())]),
        in_vars: vec![],
        with_vars: vec![],
        where_clauses: vec![pattern.clone()],
        order: vec![],
    };
    match store.q_once(tuple, vec![]) {
        Ok(QueryResults::Tuple(Some(vals))) => assert_eq!(vals.len(), 1),
        other => panic!("Expected tuple, got {:?}", other),
    }
    // Scalar with an input: the named monster's heads.
    let scalar = ParsedQuery {
        find: FindSpec::FindScalar(Element::Variable("?heads".to_string())),
        in_vars: vec!["?name".to_string()],
        with_vars: vec![],
        where_clauses: vec![
            pattern,
            WhereClause::Pattern(Pattern {
                entity: PatternNonValuePlace::Variable("?m".to_string()),
                attribute: PatternNonValuePlace::Ident(Keyword::namespaced(
                    "monster", "heads",
                )),
                value: PatternValuePlace::Variable("?heads".to_string()),
                tx: PatternNonValuePlace::Placeholder,
            }),
        ],
        order: vec![],
    };
    match store.q_once(
        scalar,
        vec![(
            "?name".to_string(),
            TypedValue::String("Cerberus".to_string()),
        )],
    ) {
        Ok(QueryResults::Scalar(Some(TypedValue::Long(3)))) => {}
        other => panic!("Expected scalar, got {:?}", other),
    }
}

#[test]
fn mistyped_inputs_prove_the_result_empty() {
    let mut store = monster_store();
    store
        .transact(vec![add("a", "monster", "heads", RawValue::Long(3))], 1)
        .expect("transacted");
    let q = ParsedQuery {
        find: FindSpec::FindScalar(Element::Variable("?m".to_string())),
        in_vars: vec!["?heads".to_string()],
        with_vars: vec![],
        where_clauses: vec![WhereClause::Pattern(Pattern {
            entity: PatternNonValuePlace::Variable("?m".to_string()),
            attribute: PatternNonValuePlace::Ident(Keyword::namespaced("monster", "heads")),
            value: PatternValuePlace::Variable("?heads".to_string()),
            tx: PatternNonValuePlace::Placeholder,
        })],
        order: vec![],
    };
    // A string input for a long-typed variable cannot match.
    match store.q_once(
        q,
        vec![(
            "?heads".to_string(),
            TypedValue::String("three".to_string()),
        )],
    ) {
        Ok(QueryResults::Scalar(None)) => {}
        other => panic!("expected an empty scalar, got {:?}", other),
    }
}

#[test]
fn implicit_grouping_by_projected_variables() {
    let mut store = monster_store();
    store
        .transact(
            vec![
                add("a", "monster", "name", RawValue::Text("Alice".to_string())),
                add("a", "monster", "heads", RawValue::Long(14)),
                add("b", "monster", "name", RawValue::Text("Alice".to_string())),
                add("b", "monster", "heads", RawValue::Long(28)),
                add("c", "monster", "name", RawValue::Text("Carlos".to_string())),
                add("c", "monster", "heads", RawValue::Long(42)),
            ],
            1,
        )
        .expect("transacted");
    let q = ParsedQuery {
        find: FindSpec::FindRel(vec![
            Element::Variable("?name".to_string()),
            Element::Aggregate(AggregateOp::Max, "?heads".to_string()),
        ]),
        in_vars: vec![],
        with_vars: vec!["?m".to_string()],
        where_clauses: vec![
            WhereClause::Pattern(Pattern {
                entity: PatternNonValuePlace::Variable("?m".to_string()),
                attribute: PatternNonValuePlace::Ident(Keyword::namespaced("monster", "name")),
                value: PatternValuePlace::Variable("?name".to_string()),
                tx: PatternNonValuePlace::Placeholder,
            }),
            WhereClause::Pattern(Pattern {
                entity: PatternNonValuePlace::Variable("?m".to_string()),
                attribute: PatternNonValuePlace::Ident(Keyword::namespaced(
                    "monster", "heads",
                )),
                value: PatternValuePlace::Variable("?heads".to_string()),
                tx: PatternNonValuePlace::Placeholder,
            }),
        ],
        order: vec![],
    };
    match store.q_once(q, vec![]) {
        Ok(QueryResults::Rel(rows)) => {
            assert_eq!(rows.len(), 2);
            let mut max_alice = None;
            let mut max_carlos = None;
            for row in rows {
                match (&row[0], &row[1]) {
                    (TypedValue::String(n), TypedValue::Long(h)) if n == "Alice" => {
                        max_alice = Some(*h)
                    }
                    (TypedValue::String(n), TypedValue::Long(h)) if n == "Carlos" => {
                        max_carlos = Some(*h)
                    }
                    other => panic!("Got unexpected results {:?}", other),
                }
            }
            assert_eq!(max_alice, Some(28));
            assert_eq!(max_carlos, Some(42));
        }
        other => panic!("Got unexpected results {:?}", other),
    }
}

#[test]
fn the_picks_the_extreme_row() {
    let mut store = monster_store();
    store
        .transact(
            vec![
                add("a", "monster", "name", RawValue::Text("Old".to_string())),
                add("a", "monster", "heads", RawValue::Long(1)),
                add("b", "monster", "name", RawValue::Text("New".to_string())),
                add("b", "monster", "heads", RawValue::Long(9)),
            ],
            1,
        )
        .expect("transacted");
    let q = ParsedQuery {
        find: FindSpec::FindTuple(vec![
            Element::Aggregate(AggregateOp::The, "?name".to_string()),
            Element::Aggregate(AggregateOp::Max, "?heads".to_string()),
        ]),
        in_vars: vec![],
        with_vars: vec![],
        where_clauses: vec![
            WhereClause::Pattern(Pattern {
                entity: PatternNonValuePlace::Variable("?m".to_string()),
                attribute: PatternNonValuePlace::Ident(Keyword::namespaced("monster", "name")),
                value: PatternValuePlace::Variable("?name".to_string()),
                tx: PatternNonValuePlace::Placeholder,
            }),
            WhereClause::Pattern(Pattern {
                entity: PatternNonValuePlace::Variable("?m".to_string()),
                attribute: PatternNonValuePlace::Ident(Keyword::namespaced(
                    "monster", "heads",
                )),
                value: PatternValuePlace::Variable("?heads".to_string()),
                tx: PatternNonValuePlace::Placeholder,
            }),
        ],
        order: vec![],
    };
    match store.q_once(q, vec![]) {
        Ok(QueryResults::Tuple(Some(vals))) => {
            assert_eq!(vals[0], TypedValue::String("New".to_string()));
            assert_eq!(vals[1], TypedValue::Long(9));
        }
        other => panic!("expected one result, got {:?}", other),
    }
}

#[test]
fn renamed_aggregate_variables_do_not_change_results() {
    // An α-equivalent renaming of the projected variables leaves an
    // aggregate query's result alone.
    let mut store = monster_store();
    store
        .transact(
            vec![
                add("a", "monster", "heads", RawValue::Long(3)),
                add("b", "monster", "heads", RawValue::Long(1)),
            ],
            1,
        )
        .expect("transacted");
    let original = ParsedQuery {
        find: FindSpec::FindScalar(Element::Aggregate(AggregateOp::Sum, "?heads".to_string())),
        in_vars: vec![],
        with_vars: vec![],
        where_clauses: vec![WhereClause::Pattern(Pattern {
            entity: PatternNonValuePlace::Variable("?m".to_string()),
            attribute: PatternNonValuePlace::Ident(Keyword::namespaced("monster", "heads")),
            value: PatternValuePlace::Variable("?heads".to_string()),
            tx: PatternNonValuePlace::Placeholder,
        })],
        order: vec![],
    };
    let renamed = ParsedQuery {
        find: FindSpec::FindScalar(Element::Aggregate(AggregateOp::Sum, "?crowns".to_string())),
        in_vars: vec![],
        with_vars: vec![],
        where_clauses: vec![WhereClause::Pattern(Pattern {
            entity: PatternNonValuePlace::Variable("?m".to_string()),
            attribute: PatternNonValuePlace::Ident(Keyword::namespaced("monster", "heads")),
            value: PatternValuePlace::Variable("?crowns".to_string()),
            tx: PatternNonValuePlace::Placeholder,
        })],
        order: vec![],
    };
    let a = store.q_once(original, vec![]).expect("results");
    let b = store.q_once(renamed, vec![]).expect("results");
    assert_eq!(a, b);
}

#[test]
fn test_type_reqs() {
    // Heterogeneous values, selected back by type requirement.
    let mut schema = Schema::default();
    schema.ident_map.push((Keyword::namespaced("test", "boolean"), 30));
    schema.attribute_map.push((30, attr(ValueType::Boolean)));
    schema.ident_map.push((Keyword::namespaced("test", "long"), 31));
    schema.attribute_map.push((31, attr(ValueType::Long)));
    schema.ident_map.push((Keyword::namespaced("test", "long2"), 32));
    schema.attribute_map.push((32, attr(ValueType::Long)));
    schema.ident_map.push((Keyword::namespaced("test", "string"), 33));
    schema.attribute_map.push((33, attr(ValueType::String)));
    let mut store = Store::new(schema);
    let report = store
        .transact(
            vec![
                add("b", "test", "boolean", RawValue::Boolean(true)),
                add("b", "test", "long", RawValue::Long(33)),
                add("b", "test", "string", RawValue::Text("foo".to_string())),
            ],
            1,
        )
        .expect("transacted");
    let eid = report.tempids[0].1;
    store
        .transact(
            vec![Assertion {
                op: Op::Add,
                e: OpEntity::Entid(eid),
                a: OpAttribute::Ident(Keyword::namespaced("test", "long2")),
                v: RawValue::Long(5),
            }],
            2,
        )
        .expect("transacted");

    // The entity is found by its string value.
    let find_eid = ParsedQuery {
        find: FindSpec::FindScalar(Element::Variable("?eid".to_string())),
        in_vars: vec![],
        with_vars: vec![],
        where_clauses: vec![WhereClause::Pattern(Pattern {
            entity: PatternNonValuePlace::Variable("?eid".to_string()),
            attribute: PatternNonValuePlace::Ident(Keyword::namespaced("test", "string")),
            value: PatternValuePlace::Constant(TypedValue::String("foo".to_string())),
            tx: PatternNonValuePlace::Placeholder,
        })],
        order: vec![],
    };
    match store.q_once(find_eid, vec![]) {
        Ok(QueryResults::Scalar(Some(TypedValue::Ref(e)))) => assert_eq!(e, eid),
        other => panic!("Query to get the entity id returned unexpected result {:?}", other),
    }

    // Selecting its values by each type requirement.
    let cases = vec![
        (ValueType::Boolean, TypedValue::Boolean(true)),
        (ValueType::String, TypedValue::String("foo".to_string())),
    ];
    for (t, expected) in cases {
        let q = ParsedQuery {
            find: FindSpec::FindColl(Element::Variable("?v".to_string())),
            in_vars: vec!["?e".to_string()],
            with_vars: vec![],
            where_clauses: vec![
                WhereClause::Pattern(Pattern {
                    entity: PatternNonValuePlace::Variable("?e".to_string()),
                    attribute: PatternNonValuePlace::Placeholder,
                    value: PatternValuePlace::Variable("?v".to_string()),
                    tx: PatternNonValuePlace::Placeholder,
                }),
                WhereClause::TypeReq("?v".to_string(), t),
            ],
            order: vec![],
        };
        match store.q_once(q, vec![("?e".to_string(), TypedValue::Ref(eid))]) {
            Ok(QueryResults::Coll(vals)) => {
                assert_eq!(vals.len(), 1, "Query should find exactly 1 item");
                assert_eq!(vals[0], expected, "Query returned unexpected type: {:?}", vals);
            }
            other => panic!("Query returned unexpected type: {:?}", other),
        }
    }
    // Two longs under the long requirement.
    let q = ParsedQuery {
        find: FindSpec::FindColl(Element::Variable("?v".to_string())),
        in_vars: vec!["?e".to_string()],
        with_vars: vec![],
        where_clauses: vec![
            WhereClause::Pattern(Pattern {
                entity: PatternNonValuePlace::Variable("?e".to_string()),
                attribute: PatternNonValuePlace::Placeholder,
                value: PatternValuePlace::Variable("?v".to_string()),
                tx: PatternNonValuePlace::Placeholder,
            }),
            WhereClause::TypeReq("?v".to_string(), ValueType::Long),
        ],
        order: vec![],
    };
    match store.q_once(q, vec![("?e".to_string(), TypedValue::Ref(eid))]) {
        Ok(QueryResults::Coll(vals)) => {
            assert_eq!(vals.len(), 2);
            assert!(vals.contains(&TypedValue::Long(33)));
            assert!(vals.contains(&TypedValue::Long(5)));
        }
        other => panic!("Query returned unexpected type: {:?}", other),
    }
}

#[test]
fn patterns_can_bind_the_transaction() {
    let mut store = monster_store();
    let r1 = store
        .transact(vec![add("a", "monster", "heads", RawValue::Long(3))], 10)
        .expect("transacted");
    let q = ParsedQuery {
        find: FindSpec::FindScalar(Element::Variable("?tx".to_string())),
        in_vars: vec![],
        with_vars: vec![],
        where_clauses: vec![WhereClause::Pattern(Pattern {
            entity: PatternNonValuePlace::Variable("?m".to_string()),
            attribute: PatternNonValuePlace::Ident(Keyword::namespaced("monster", "heads")),
            value: PatternValuePlace::Variable("?v".to_string()),
            tx: PatternNonValuePlace::Variable("?tx".to_string()),
        })],
        order: vec![],
    };
    match store.q_once(q, vec![]) {
        Ok(QueryResults::Scalar(Some(TypedValue::Ref(tx)))) => assert_eq!(tx, r1.tx_id),
        other => panic!("expected the transaction id, got {:?}", other),
    }
}

#[test]
fn ordering_sorts_rows_lexicographically() {
    let mut store = monster_store();
    store
        .transact(
            vec![
                add("a", "monster", "name", RawValue::Text("Medusa".to_string())),
                add("a", "monster", "heads", RawValue::Long(1)),
                add("b", "monster", "name", RawValue::Text("Cerberus".to_string())),
                add("b", "monster", "heads", RawValue::Long(3)),
                add("c", "monster", "name", RawValue::Text("Cyclops".to_string())),
                add("c", "monster", "heads", RawValue::Long(1)),
            ],
            1,
        )
        .expect("transacted");
    let q = |dir: Direction| ParsedQuery {
        find: FindSpec::FindRel(vec![
            Element::Variable("?heads".to_string()),
            Element::Variable("?name".to_string()),
        ]),
        in_vars: vec![],
        with_vars: vec![],
        where_clauses: vec![
            WhereClause::Pattern(Pattern {
                entity: PatternNonValuePlace::Variable("?m".to_string()),
                attribute: PatternNonValuePlace::Ident(Keyword::namespaced("monster", "heads")),
                value: PatternValuePlace::Variable("?heads".to_string()),
                tx: PatternNonValuePlace::Placeholder,
            }),
            WhereClause::Pattern(Pattern {
                entity: PatternNonValuePlace::Variable("?m".to_string()),
                attribute: PatternNonValuePlace::Ident(Keyword::namespaced("monster", "name")),
                value: PatternValuePlace::Variable("?name".to_string()),
                tx: PatternNonValuePlace::Placeholder,
            }),
        ],
        order: vec![
            OrderBy(dir, "?heads".to_string()),
            OrderBy(Direction::Ascending, "?name".to_string()),
        ],
    };
    match store.q_once(q(Direction::Ascending), vec![]) {
        Ok(QueryResults::Rel(rows)) => {
            let names: Vec<_> = rows.iter().map(|r| r[1].clone()).collect();
            assert_eq!(
                names,
                vec![
                    TypedValue::String("Cyclops".to_string()),
                    TypedValue::String("Medusa".to_string()),
                    TypedValue::String("Cerberus".to_string()),
                ]
            );
        }
        other => panic!("expected an ordered relation, got {:?}", other),
    }
    match store.q_once(q(Direction::Descending), vec![]) {
        Ok(QueryResults::Rel(rows)) => {
            assert_eq!(rows[0][0], TypedValue::Long(3));
            assert_eq!(rows[0][1], TypedValue::String("Cerberus".to_string()));
        }
        other => panic!("expected an ordered relation, got {:?}", other),
    }
    // Ordering by a variable the projection does not carry is refused
    // by the in-memory evaluator.
    let mut unprojected = q(Direction::Ascending);
    unprojected.order = vec![OrderBy(Direction::Ascending, "?m".to_string())];
    unprojected.with_vars = vec!["?m".to_string()];
    match store.q_once(unprojected, vec![]) {
        Err(CoreError::NotYetImplemented(_)) => {}
        other => panic!("expected a refusal, got {:?}", other),
    }
}

#[test]
fn transactions_record_their_instant_datom() {
    let mut store = monster_store();
    let report = store
        .transact(vec![add("a", "monster", "heads", RawValue::Long(3))], 77)
        .expect("transacted");
    // The transaction's own entity carries :db/txInstant.
    let tx_datoms: Vec<_> = store
        .datoms
        .iter()
        .filter(|d| d.e == report.tx_id && d.a == entids::DB_TX_INSTANT)
        .collect();
    assert_eq!(tx_datoms.len(), 1);
    assert_eq!(tx_datoms[0].v, TypedValue::Instant(report.tx_instant));
    assert_eq!(tx_datoms[0].tx, report.tx_id);
    assert_eq!(report.tx_instant, 77);
}

#[test]
fn shared_tempids_land_on_one_entity() {
    let mut store = monster_store();
    let report = store
        .transact(
            vec![
                add("v", "monster", "name", RawValue::Text("Hydra".to_string())),
                add("v", "monster", "heads", RawValue::Long(9)),
            ],
            1,
        )
        .expect("transacted");
    assert_eq!(report.tempids.len(), 1);
    let e = report.tempids[0].1;
    // Both assertions under the tempid became datoms of that entity.
    assert!(store
        .datoms
        .iter()
        .any(|d| d.e == e && d.a == 101 && d.v == TypedValue::String("Hydra".to_string())));
    assert!(store.datoms.iter().any(|d| d.e == e && d.a == 100 && d.v == TypedValue::Long(9)));
}
