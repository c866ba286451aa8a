//! Algebrizing queries: type requirements, collapse to empty, aggregate
//! checks and orderings.

use mentat::algebrize::{algebrize, EmptyBecause};
use mentat::attributes::Attribute;
use mentat::errors::CoreError;
use mentat::query::{
    AggregateOp, Direction, Element, FindSpec, FnArg, OrderBy, ParsedQuery, Pattern,
    PatternNonValuePlace, PatternValuePlace, PredicateOp, WhereClause,
};
use mentat::schema::Schema;
use mentat::values::{Keyword, TypedValue, ValueType};

fn attr(value_type: ValueType) -> Attribute {
    Attribute {
        value_type,
        multival: false,
        unique: None,
        index: false,
        fulltext: false,
        component: false,
        no_history: false,
    }
}

fn test_schema() -> Schema {
    let mut schema = Schema::default();
    let types = [
        ("boolean", ValueType::Boolean, 28),
        ("long", ValueType::Long, 29),
        ("double", ValueType::Double, 30),
        ("string", ValueType::String, 31),
        ("keyword", ValueType::Keyword, 32),
        ("uuid", ValueType::Uuid, 33),
        ("instant", ValueType::Instant, 34),
        ("ref", ValueType::Ref, 35),
        ("bytes", ValueType::Bytes, 36),
    ];
    for (name, t, e) in types {
        schema.ident_map.push((Keyword::namespaced("test", name), e));
        schema.attribute_map.push((e, attr(t)));
    }
    let mut ft = attr(ValueType::String);
    ft.fulltext = true;
    ft.index = true;
    schema.ident_map.push((Keyword::namespaced("test", "fulltext"), 37));
    schema.attribute_map.push((37, ft));
    schema
}

fn find_e() -> FindSpec {
    FindSpec::FindRel(vec![Element::Variable("?e".to_string())])
}

fn pattern_ev(attr_name: &str) -> WhereClause {
    WhereClause::Pattern(Pattern {
        entity: PatternNonValuePlace::Variable("?e".to_string()),
        attribute: PatternNonValuePlace::Ident(Keyword::namespaced("test", attr_name)),
        value: PatternValuePlace::Variable("?v".to_string()),
        tx: PatternNonValuePlace::Placeholder,
    })
}

fn query(where_clauses: Vec<WhereClause>) -> ParsedQuery {
    ParsedQuery {
        find: find_e(),
        in_vars: vec![],
        with_vars: vec![],
        where_clauses,
        order: vec![],
    }
}

#[test]
fn test_empty_known() {
    // A type requirement that contradicts the attribute's type proves
    // the plan empty; an agreeing one does not.
    let schema = test_schema();
    let types = [
        ("boolean", ValueType::Boolean),
        ("long", ValueType::Long),
        ("double", ValueType::Double),
        ("string", ValueType::String),
        ("keyword", ValueType::Keyword),
        ("uuid", ValueType::Uuid),
        ("instant", ValueType::Instant),
        ("ref", ValueType::Ref),
        ("bytes", ValueType::Bytes),
    ];
    for (name, known_type) in types {
        for (_, required) in types {
            let q = query(vec![
                pattern_ev(name),
                WhereClause::TypeReq("?v".to_string(), required),
            ]);
            let aq = algebrize(&schema, q).expect("algebrization to succeed");
            if known_type == required {
                assert_eq!(aq.cc.empty_because, None, "known_type = {:?}; required = {:?}", known_type, required);
            } else {
                assert_eq!(
                    aq.cc.empty_because,
                    Some(EmptyBecause::TypeMismatch),
                    "known_type = {:?}; required = {:?}",
                    known_type,
                    required
                );
            }
        }
    }
}

#[test]
fn test_multiple() {
    // Conflicting type requirements on one variable collapse the plan.
    let schema = test_schema();
    let q = query(vec![
        WhereClause::Pattern(Pattern {
            entity: PatternNonValuePlace::Variable("?e".to_string()),
            attribute: PatternNonValuePlace::Placeholder,
            value: PatternValuePlace::Variable("?v".to_string()),
            tx: PatternNonValuePlace::Placeholder,
        }),
        WhereClause::TypeReq("?v".to_string(), ValueType::Long),
        WhereClause::TypeReq("?v".to_string(), ValueType::Double),
    ]);
    let aq = algebrize(&schema, q).expect("algebrization to succeed");
    assert_eq!(aq.cc.empty_because, Some(EmptyBecause::TypeMismatch));
}

#[test]
fn test_unbound() {
    // A type requirement over a variable no clause binds fails.
    let schema = test_schema();
    let q = query(vec![WhereClause::TypeReq("?e".to_string(), ValueType::String)]);
    match algebrize(&schema, q) {
        Err(CoreError::InvalidArgument(sym, _, _)) => assert_eq!(sym, "?e"),
        other => panic!("expected an invalid argument, got {:?}", other),
    }
}

#[test]
fn collapse_on_mistyped_constant() {
    // A double constant under a long attribute proves the plan empty.
    let schema = test_schema();
    let q = query(vec![WhereClause::Pattern(Pattern {
        entity: PatternNonValuePlace::Variable("?e".to_string()),
        attribute: PatternNonValuePlace::Ident(Keyword::namespaced("test", "long")),
        value: PatternValuePlace::Constant(TypedValue::Double(0x3ff0000000000000)),
        tx: PatternNonValuePlace::Placeholder,
    })]);
    let aq = algebrize(&schema, q).expect("algebrization to succeed");
    assert_eq!(aq.cc.empty_because, Some(EmptyBecause::TypeMismatch));
}

#[test]
fn unknown_attribute_keyword_is_refused() {
    let schema = test_schema();
    let q = query(vec![WhereClause::Pattern(Pattern {
        entity: PatternNonValuePlace::Variable("?e".to_string()),
        attribute: PatternNonValuePlace::Ident(Keyword::namespaced("no", "where")),
        value: PatternValuePlace::Variable("?v".to_string()),
        tx: PatternNonValuePlace::Placeholder,
    })]);
    match algebrize(&schema, q) {
        Err(CoreError::UnrecognizedIdent(s)) => assert_eq!(s, ":no/where"),
        other => panic!("expected an unrecognized ident, got {:?}", other),
    }
}

#[test]
fn sum_over_strings_is_refused() {
    let schema = test_schema();
    let q = ParsedQuery {
        find: FindSpec::FindScalar(Element::Aggregate(AggregateOp::Sum, "?v".to_string())),
        in_vars: vec![],
        with_vars: vec![],
        where_clauses: vec![pattern_ev("string")],
        order: vec![],
    };
    match algebrize(&schema, q) {
        Err(CoreError::CannotApplyAggregateOperationToTypes(AggregateOp::Sum, ts)) => {
            assert!(ts.contains(ValueType::String));
        }
        other => panic!("expected an aggregate type error, got {:?}", other),
    }
}

#[test]
fn ambiguous_the_is_counted() {
    // One `the` beside two `min`/`max` aggregates is ambiguous.
    let schema = test_schema();
    let q = ParsedQuery {
        find: FindSpec::FindTuple(vec![
            Element::Aggregate(AggregateOp::The, "?name".to_string()),
            Element::Aggregate(AggregateOp::Min, "?score".to_string()),
            Element::Aggregate(AggregateOp::Max, "?score".to_string()),
        ]),
        in_vars: vec![],
        with_vars: vec![],
        where_clauses: vec![
            WhereClause::Pattern(Pattern {
                entity: PatternNonValuePlace::Variable("?x".to_string()),
                attribute: PatternNonValuePlace::Ident(Keyword::namespaced("test", "string")),
                value: PatternValuePlace::Variable("?name".to_string()),
                tx: PatternNonValuePlace::Placeholder,
            }),
            WhereClause::Pattern(Pattern {
                entity: PatternNonValuePlace::Variable("?x".to_string()),
                attribute: PatternNonValuePlace::Ident(Keyword::namespaced("test", "long")),
                value: PatternValuePlace::Variable("?score".to_string()),
                tx: PatternNonValuePlace::Placeholder,
            }),
        ],
        order: vec![],
    };
    match algebrize(&schema, q) {
        Err(CoreError::AmbiguousAggregates(2, 1)) => {}
        other => panic!("expected ambiguous aggregates, got {:?}", other),
    }
}

#[test]
fn ordering_demands_a_projected_variable() {
    let schema = test_schema();
    let mut q = query(vec![pattern_ev("long")]);
    q.order = vec![OrderBy(Direction::Ascending, "?v".to_string())];
    // ?v is neither projected nor in :with.
    match algebrize(&schema, q) {
        Err(CoreError::InvalidArgument(sym, _, _)) => assert_eq!(sym, "?v"),
        other => panic!("expected an invalid argument, got {:?}", other),
    }
    // Declared in :with it is admitted.
    let mut q2 = query(vec![pattern_ev("long")]);
    q2.with_vars = vec!["?v".to_string()];
    q2.order = vec![OrderBy(Direction::Ascending, "?v".to_string())];
    assert!(algebrize(&schema, q2).is_ok());
}

#[test]
fn fulltext_demands_a_fulltext_attribute() {
    let schema = test_schema();
    let q = query(vec![WhereClause::Fulltext(
        Keyword::namespaced("test", "string"),
        FnArg::Constant(TypedValue::String("hello".to_string())),
        mentat::query::FulltextBinding {
            entity: Some("?e".to_string()),
            value: None,
            tx: None,
            score: None,
        },
    )]);
    match algebrize(&schema, q) {
        Err(CoreError::InvalidArgument(sym, expected, _)) => {
            assert_eq!(sym, ":test/string");
            assert_eq!(expected, "a fulltext attribute");
        }
        other => panic!("expected an invalid argument, got {:?}", other),
    }
    // Over the fulltext attribute the clause algebrizes.
    let q2 = query(vec![WhereClause::Fulltext(
        Keyword::namespaced("test", "fulltext"),
        FnArg::Constant(TypedValue::String("hello".to_string())),
        mentat::query::FulltextBinding {
            entity: Some("?e".to_string()),
            value: Some("?v".to_string()),
            tx: None,
            score: None,
        },
    )]);
    assert!(algebrize(&schema, q2).is_ok());
}

#[test]
fn predicates_demand_bound_comparable_operands() {
    let schema = test_schema();
    // An unbound operand fails.
    let q = query(vec![WhereClause::Pred(
        PredicateOp::Lt,
        vec![
            FnArg::Variable("?v".to_string()),
            FnArg::EntidOrInteger(10),
        ],
    )]);
    match algebrize(&schema, q) {
        Err(CoreError::InvalidArgument(sym, _, _)) => assert_eq!(sym, "?v"),
        other => panic!("expected an invalid argument, got {:?}", other),
    }
    // A bound numeric operand is admitted.
    let q2 = query(vec![
        pattern_ev("long"),
        WhereClause::Pred(
            PredicateOp::Lt,
            vec![
                FnArg::Variable("?v".to_string()),
                FnArg::EntidOrInteger(10),
            ],
        ),
    ]);
    assert!(algebrize(&schema, q2).is_ok());
    // A bound string operand collapses the plan under an ordering
    // predicate.
    let q3 = query(vec![
        pattern_ev("string"),
        WhereClause::Pred(
            PredicateOp::Lt,
            vec![
                FnArg::Variable("?v".to_string()),
                FnArg::EntidOrInteger(10),
            ],
        ),
    ]);
    let aq = algebrize(&schema, q3).expect("algebrization to succeed");
    assert_eq!(aq.cc.empty_because, Some(EmptyBecause::TypeMismatch));
}
