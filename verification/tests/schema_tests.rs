//! Schema validation and the attribute builder/mutator.

use mentat::attributes::{Attribute, AttributeAlteration, AttributeBuilder, AttributeValidation, Unique};
use mentat::errors::CoreError;
use mentat::schema::{validate_attribute_map, Schema};
use mentat::values::{Keyword, ValueType};

fn add_attribute(schema: &mut Schema, ident: Keyword, entid: i64, attribute: Attribute) {
    schema.ident_map.push((ident, entid));
    if attribute.component {
        schema.component_attributes.push(entid);
    }
    schema.attribute_map.push((entid, attribute));
}

fn validation_message(schema: &Schema) -> Option<String> {
    match validate_attribute_map(&schema.ident_map, &schema.attribute_map) {
        Ok(()) => None,
        Err(CoreError::BadSchemaAssertion(m)) => Some(m),
        Err(e) => panic!("unexpected error {:?}", e),
    }
}

#[test]
fn validate_attribute_map_success() {
    let mut schema = Schema::default();
    // attribute that is not an index has no uniqueness
    add_attribute(
        &mut schema,
        Keyword::namespaced("foo", "bar"),
        97,
        Attribute {
            index: false,
            value_type: ValueType::Boolean,
            fulltext: false,
            unique: None,
            multival: false,
            component: false,
            no_history: false,
        },
    );
    // attribute is unique by value and an index
    add_attribute(
        &mut schema,
        Keyword::namespaced("foo", "baz"),
        98,
        Attribute {
            index: true,
            value_type: ValueType::Long,
            fulltext: false,
            unique: Some(Unique::Value),
            multival: false,
            component: false,
            no_history: false,
        },
    );
    // attribute is unique by identity and an index
    add_attribute(
        &mut schema,
        Keyword::namespaced("foo", "bat"),
        99,
        Attribute {
            index: true,
            value_type: ValueType::Ref,
            fulltext: false,
            unique: Some(Unique::Identity),
            multival: false,
            component: false,
            no_history: false,
        },
    );
    // attribute is a component and a `Ref`
    add_attribute(
        &mut schema,
        Keyword::namespaced("foo", "bak"),
        100,
        Attribute {
            index: false,
            value_type: ValueType::Ref,
            fulltext: false,
            unique: None,
            multival: false,
            component: true,
            no_history: false,
        },
    );
    // fulltext attribute is a string and an index
    add_attribute(
        &mut schema,
        Keyword::namespaced("foo", "bap"),
        101,
        Attribute {
            index: true,
            value_type: ValueType::String,
            fulltext: true,
            unique: None,
            multival: false,
            component: false,
            no_history: false,
        },
    );

    assert!(validate_attribute_map(&schema.ident_map, &schema.attribute_map).is_ok());
}

#[test]
fn invalid_schema_unique_value_not_index() {
    let mut schema = Schema::default();
    // attribute unique by value but not index
    let ident = Keyword::namespaced("foo", "bar");
    add_attribute(
        &mut schema,
        ident,
        99,
        Attribute {
            index: false,
            value_type: ValueType::Boolean,
            fulltext: false,
            unique: Some(Unique::Value),
            multival: false,
            component: false,
            no_history: false,
        },
    );

    assert_eq!(
        validation_message(&schema),
        Some(":db/unique :db/unique_value without :db/index true for entid: :foo/bar".to_string())
    );
}

#[test]
fn invalid_schema_unique_identity_not_index() {
    let mut schema = Schema::default();
    // attribute is unique by identity but not index
    add_attribute(
        &mut schema,
        Keyword::namespaced("foo", "bar"),
        99,
        Attribute {
            index: false,
            value_type: ValueType::Long,
            fulltext: false,
            unique: Some(Unique::Identity),
            multival: false,
            component: false,
            no_history: false,
        },
    );

    assert_eq!(
        validation_message(&schema),
        Some(
            ":db/unique :db/unique_identity without :db/index true for entid: :foo/bar"
                .to_string()
        )
    );
}

#[test]
fn invalid_schema_component_not_ref() {
    let mut schema = Schema::default();
    // attribute that is a component is not a `Ref`
    add_attribute(
        &mut schema,
        Keyword::namespaced("foo", "bar"),
        99,
        Attribute {
            index: false,
            value_type: ValueType::Boolean,
            fulltext: false,
            unique: None,
            multival: false,
            component: true,
            no_history: false,
        },
    );

    assert_eq!(
        validation_message(&schema),
        Some(
            ":db/isComponent true without :db/valueType :db.type/ref for entid: :foo/bar"
                .to_string()
        )
    );
}

#[test]
fn invalid_schema_fulltext_not_index() {
    let mut schema = Schema::default();
    // attribute that is fulltext is not an index
    add_attribute(
        &mut schema,
        Keyword::namespaced("foo", "bar"),
        99,
        Attribute {
            index: false,
            value_type: ValueType::String,
            fulltext: true,
            unique: None,
            multival: false,
            component: false,
            no_history: false,
        },
    );

    assert_eq!(
        validation_message(&schema),
        Some(":db/fulltext true without :db/index true for entid: :foo/bar".to_string())
    );
}

#[test]
fn invalid_schema_fulltext_index_not_string() {
    let mut schema = Schema::default();
    // attribute that is fulltext and not a `String`
    add_attribute(
        &mut schema,
        Keyword::namespaced("foo", "bar"),
        99,
        Attribute {
            index: true,
            value_type: ValueType::Long,
            fulltext: true,
            unique: None,
            multival: false,
            component: false,
            no_history: false,
        },
    );

    assert_eq!(
        validation_message(&schema),
        Some(
            ":db/fulltext true without :db/valueType :db.type/string for entid: :foo/bar"
                .to_string()
        )
    );
}

#[test]
fn validator_names_entid_when_no_ident_is_installed() {
    let mut schema = Schema::default();
    schema.attribute_map.push((
        99,
        Attribute {
            index: false,
            value_type: ValueType::Boolean,
            fulltext: false,
            unique: Some(Unique::Value),
            multival: false,
            component: false,
            no_history: false,
        },
    ));
    assert_eq!(
        validation_message(&schema),
        Some(":db/unique :db/unique_value without :db/index true for entid: 99".to_string())
    );
}

#[test]
fn validate_rejects_direct_attribute_check() {
    let a = Attribute {
        index: false,
        value_type: ValueType::String,
        fulltext: true,
        unique: None,
        multival: false,
        component: false,
        no_history: false,
    };
    let r = a.validate(":foo/bar".to_string());
    match r {
        Err(CoreError::BadSchemaAssertion(m)) => {
            assert_eq!(m, ":db/fulltext true without :db/index true for entid: :foo/bar");
        }
        other => panic!("expected a schema assertion error, got {:?}", other),
    }
}

#[test]
fn builder_defaults_and_helpful_flags() {
    let mut b = AttributeBuilder::helpful();
    b.value_type(ValueType::String);
    b.unique(Unique::Identity);
    // A helpful builder flips index on for identity uniqueness.
    assert_eq!(b.index, Some(true));
    let a = b.build();
    assert_eq!(a.value_type, ValueType::String);
    assert_eq!(a.unique, Some(Unique::Identity));
    assert!(a.index);
    assert!(!a.multival);
    assert!(!a.fulltext);
    assert!(!a.component);
    assert!(!a.no_history);

    let mut plain: AttributeBuilder = Default::default();
    plain.unique(Unique::Identity);
    // A plain builder does not touch index.
    assert_eq!(plain.index, None);

    let mut ft = AttributeBuilder::helpful();
    ft.fulltext(true);
    assert_eq!(ft.index, Some(true));
}

#[test]
fn builder_install_requires_value_type() {
    let b: AttributeBuilder = Default::default();
    match b.validate_install_attribute() {
        Err(CoreError::BadSchemaAssertion(m)) => {
            assert_eq!(m, "Schema attribute for new attribute does not set :db/valueType");
        }
        other => panic!("expected a schema assertion error, got {:?}", other),
    }
    let mut ok: AttributeBuilder = Default::default();
    ok.value_type(ValueType::Long);
    assert!(ok.validate_install_attribute().is_ok());
}

#[test]
fn builder_alter_forbids_value_type_and_fulltext() {
    let mut b: AttributeBuilder = Default::default();
    b.value_type(ValueType::Long);
    match b.validate_alter_attribute() {
        Err(CoreError::BadSchemaAssertion(m)) => {
            assert_eq!(m, "Schema alteration must not set :db/valueType");
        }
        other => panic!("expected a schema assertion error, got {:?}", other),
    }
    let mut f: AttributeBuilder = Default::default();
    f.fulltext(true);
    match f.validate_alter_attribute() {
        Err(CoreError::BadSchemaAssertion(m)) => {
            assert_eq!(m, "Schema alteration must not set :db/fulltext");
        }
        other => panic!("expected a schema assertion error, got {:?}", other),
    }
    let mut ok: AttributeBuilder = Default::default();
    ok.multival(true);
    assert!(ok.validate_alter_attribute().is_ok());
}

#[test]
fn mutate_reports_changed_fields_and_clears_absent_unique() {
    let mut attribute = Attribute {
        value_type: ValueType::Long,
        multival: false,
        unique: Some(Unique::Identity),
        index: true,
        fulltext: false,
        component: false,
        no_history: false,
    };
    let mut b: AttributeBuilder = Default::default();
    b.multival(true);
    b.index(false);
    // No unique override: the constraint is cleared.
    let mutations = b.mutate(&mut attribute);
    assert_eq!(
        mutations,
        vec![
            AttributeAlteration::Cardinality,
            AttributeAlteration::Unique,
            AttributeAlteration::Index,
        ]
    );
    assert!(attribute.multival);
    assert_eq!(attribute.unique, None);
    assert!(!attribute.index);
    // Unchanged overrides report nothing.
    let mut same: AttributeBuilder = Default::default();
    same.multival(true);
    same.non_unique();
    let mutations = same.mutate(&mut attribute);
    assert_eq!(mutations, vec![]);
}

#[test]
fn modify_attribute_carries_mutable_fields() {
    let attribute = Attribute {
        value_type: ValueType::Ref,
        multival: true,
        unique: Some(Unique::Value),
        index: true,
        fulltext: false,
        component: true,
        no_history: false,
    };
    let b = AttributeBuilder::modify_attribute(&attribute);
    assert_eq!(b.multival, Some(true));
    assert_eq!(b.unique, Some(Some(Unique::Value)));
    assert_eq!(b.component, Some(true));
    assert_eq!(b.value_type, None);
    assert_eq!(b.fulltext, None);
}
