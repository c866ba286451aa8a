//! Attribute metadata: the per-attribute flags, their invariants, and the
//! builder/mutator used to install a fresh attribute or alter an
//! installed one during a transaction.

use vstd::prelude::*;
use vstd::string::StringExecFns;
use crate::errors::CoreError;
use crate::values::ValueType;

verus! {

/// A uniqueness constraint: `Value` makes the (attribute, value) pair
/// identify at most one entity; `Identity` additionally supports upsert
/// by value.
#[derive(Clone, Copy, Debug, PartialEq, Eq, Structural, Hash)]
pub enum Unique {
    Value,
    Identity,
}

/// The kind of an observed alteration of an installed attribute, used by
/// the storage collaborator to plan index rebuilds.
#[derive(Clone, Copy, Debug, PartialEq, Eq, Structural, Hash)]
pub enum AttributeAlteration {
    Index,
    Unique,
    Cardinality,
    NoHistory,
    IsComponent,
}

/// Metadata attached to an entid that qualifies it as a schema attribute.
#[derive(Clone, Copy, Debug, PartialEq, Eq, Hash)]
pub struct Attribute {
    /// Type of all values asserted with this attribute; immutable after
    /// install.
    pub value_type: ValueType,
    /// Cardinality-many when true, else cardinality-one.
    pub multival: bool,
    /// The uniqueness constraint, if any.
    pub unique: Option<Unique>,
    /// Whether the attribute participates in an index.
    pub index: bool,
    /// Whether values are indexed for full-text search.
    pub fulltext: bool,
    /// Whether a `Ref` value denotes an owned sub-entity.
    pub component: bool,
    /// Whether mutations are physically replaced rather than accumulated.
    pub no_history: bool,
}

impl Attribute {
    /// The four cross-field invariants every schema attribute obeys.
    pub open spec fn invariants_hold(self) -> bool {
        &&& self.unique == Some(Unique::Value) ==> self.index
        &&& self.unique == Some(Unique::Identity) ==> self.index
        &&& self.fulltext ==> self.value_type == ValueType::String && self.index
        &&& self.component ==> self.value_type == ValueType::Ref
    }
}

/// The message `validate` reports for the first check `a` fails,
/// meaningful only when the invariants do not hold.
pub open spec fn validate_error_message(a: Attribute, ident: Seq<char>) -> Seq<char> {
    if a.unique == Some(Unique::Value) && !a.index {
        ":db/unique :db/unique_value without :db/index true for entid: "@ + ident
    } else if a.unique == Some(Unique::Identity) && !a.index {
        ":db/unique :db/unique_identity without :db/index true for entid: "@ + ident
    } else if a.fulltext && a.value_type != ValueType::String {
        ":db/fulltext true without :db/valueType :db.type/string for entid: "@ + ident
    } else if a.fulltext && !a.index {
        ":db/fulltext true without :db/index true for entid: "@ + ident
    } else {
        ":db/isComponent true without :db/valueType :db.type/ref for entid: "@ + ident
    }
}

/// A `BadSchemaAssertion` whose message is the prefix followed by the
/// rendered ident.
fn bad_schema(prefix: &'static str, ident: String) -> (e: CoreError)
    ensures
        e matches CoreError::BadSchemaAssertion(m) && m@ == prefix@ + ident@,
{
    let mut m = prefix.to_owned();
    m.append(ident.as_str());
    CoreError::BadSchemaAssertion(m)
}

/// Per-attribute invariant checking; `ident` is the rendered name an
/// error message carries.
pub trait AttributeValidation {
    /// Whether the invariants hold of this value.
    spec fn validation_ok(&self) -> bool;

    /// The message reported when they do not (meaningful only then).
    spec fn validation_message(&self, ident: Seq<char>) -> Seq<char>;

    /// Check the invariants, naming `ident` in any error.
    fn validate(&self, ident: String) -> (r: Result<(), CoreError>)
        ensures
            self.validation_ok() <==> r is Ok,
            !self.validation_ok() ==> (r matches Err(CoreError::BadSchemaAssertion(m))
                && m@ == self.validation_message(ident@)),
    ;
}

impl AttributeValidation for Attribute {
    open spec fn validation_ok(&self) -> bool {
        self.invariants_hold()
    }

    open spec fn validation_message(&self, ident: Seq<char>) -> Seq<char> {
        validate_error_message(*self, ident)
    }

    fn validate(&self, ident: String) -> (r: Result<(), CoreError>) {
        if matches!(self.unique, Some(Unique::Value)) && !self.index {
            Err(bad_schema(":db/unique :db/unique_value without :db/index true for entid: ", ident))
        } else if matches!(self.unique, Some(Unique::Identity)) && !self.index {
            Err(
                bad_schema(
                    ":db/unique :db/unique_identity without :db/index true for entid: ",
                    ident,
                ),
            )
        } else if self.fulltext && !matches!(self.value_type, ValueType::String) {
            Err(
                bad_schema(
                    ":db/fulltext true without :db/valueType :db.type/string for entid: ",
                    ident,
                ),
            )
        } else if self.fulltext && !self.index {
            Err(bad_schema(":db/fulltext true without :db/index true for entid: ", ident))
        } else if self.component && !matches!(self.value_type, ValueType::Ref) {
            Err(
                bad_schema(
                    ":db/isComponent true without :db/valueType :db.type/ref for entid: ",
                    ident,
                ),
            )
        } else {
            Ok(())
        }
    }
}

impl Default for Attribute {
    /// There is no particular reason to favour one value type, so `Ref`
    /// it is.
    fn default() -> (a: Attribute)
        ensures
            a == (Attribute {
                value_type: ValueType::Ref,
                multival: false,
                unique: None,
                index: false,
                fulltext: false,
                component: false,
                no_history: false,
            }),
    {
        Attribute {
            value_type: ValueType::Ref,
            multival: false,
            unique: None,
            index: false,
            fulltext: false,
            component: false,
            no_history: false,
        }
    }
}

/// Collects optional attribute fields for an install or an alteration.
/// When made `helpful`, setting `unique = Identity` or `fulltext = true`
/// also flips `index` on, as a courtesy for human-authored schema.
#[derive(Clone, Copy, Debug, PartialEq, Eq)]
pub struct AttributeBuilder {
    pub helpful: bool,
    pub value_type: Option<ValueType>,
    pub multival: Option<bool>,
    pub unique: Option<Option<Unique>>,
    pub index: Option<bool>,
    pub fulltext: Option<bool>,
    pub component: Option<bool>,
    pub no_history: Option<bool>,
}

impl Default for AttributeBuilder {
    fn default() -> (b: AttributeBuilder)
        ensures
            b == (AttributeBuilder {
                helpful: false,
                value_type: None,
                multival: None,
                unique: None,
                index: None,
                fulltext: None,
                component: None,
                no_history: None,
            }),
    {
        AttributeBuilder {
            helpful: false,
            value_type: None,
            multival: None,
            unique: None,
            index: None,
            fulltext: None,
            component: None,
            no_history: None,
        }
    }
}

/// Whether an optional boolean override differs from the current value.
pub open spec fn changed_bool(over: Option<bool>, cur: bool) -> bool {
    match over {
        Some(v) => v != cur,
        None => false,
    }
}

/// Whether the uniqueness override changes the current constraint; an
/// absent override clears a present constraint.
pub open spec fn changed_unique(over: Option<Option<Unique>>, cur: Option<Unique>) -> bool {
    match over {
        Some(u) => u != cur,
        None => cur is Some,
    }
}

impl AttributeBuilder {
    /// The attribute `build` returns: set fields take their given
    /// values, the rest default.
    pub open spec fn spec_build(self) -> Attribute {
        Attribute {
            value_type: match self.value_type {
                Some(vt) => vt,
                None => ValueType::Ref,
            },
            multival: match self.multival {
                Some(m) => m,
                None => false,
            },
            unique: match self.unique {
                Some(u) => u,
                None => None,
            },
            index: match self.index {
                Some(i) => i,
                None => false,
            },
            fulltext: match self.fulltext {
                Some(f) => f,
                None => false,
            },
            component: match self.component {
                Some(c) => c,
                None => false,
            },
            no_history: match self.no_history {
                Some(n) => n,
                None => false,
            },
        }
    }

    /// The attribute `mutate` leaves behind: overridden fields take
    /// their overrides, an absent `unique` override clears the
    /// constraint, and `value_type` and `fulltext` never change.
    pub open spec fn spec_mutated(self, a: Attribute) -> Attribute {
        Attribute {
            value_type: a.value_type,
            fulltext: a.fulltext,
            multival: match self.multival {
                Some(m) => m,
                None => a.multival,
            },
            unique: match self.unique {
                Some(u) => u,
                None => None,
            },
            index: match self.index {
                Some(i) => i,
                None => a.index,
            },
            component: match self.component {
                Some(c) => c,
                None => a.component,
            },
            no_history: match self.no_history {
                Some(n) => n,
                None => a.no_history,
            },
        }
    }

    /// The alteration records `mutate` reports, in the order the fields
    /// are examined.
    pub open spec fn spec_mutations(self, a: Attribute) -> Seq<AttributeAlteration> {
        let m1 = if changed_bool(self.multival, a.multival) {
            Seq::empty().push(AttributeAlteration::Cardinality)
        } else {
            Seq::empty()
        };
        let m2 = if changed_unique(self.unique, a.unique) {
            m1.push(AttributeAlteration::Unique)
        } else {
            m1
        };
        let m3 = if changed_bool(self.index, a.index) {
            m2.push(AttributeAlteration::Index)
        } else {
            m2
        };
        let m4 = if changed_bool(self.component, a.component) {
            m3.push(AttributeAlteration::IsComponent)
        } else {
            m3
        };
        if changed_bool(self.no_history, a.no_history) {
            m4.push(AttributeAlteration::NoHistory)
        } else {
            m4
        }
    }

    /// A builder for human consumption: it will help you by flipping
    /// relevant flags.
    pub fn helpful() -> (b: AttributeBuilder)
        ensures
            b == (AttributeBuilder { helpful: true, ..AttributeBuilder::default_spec() }),
    {
        AttributeBuilder { helpful: true, ..Default::default() }
    }

    /// The value `Default::default` returns.
    pub open spec fn default_spec() -> AttributeBuilder {
        AttributeBuilder {
            helpful: false,
            value_type: None,
            multival: None,
            unique: None,
            index: None,
            fulltext: None,
            component: None,
            no_history: None,
        }
    }

    /// A builder seeded from an existing attribute, so that a later
    /// alteration can retract fields. Only the fields an alteration may
    /// change are carried over.
    pub fn modify_attribute(attribute: &Attribute) -> (b: AttributeBuilder)
        ensures
            b == (AttributeBuilder {
                multival: Some(attribute.multival),
                unique: Some(attribute.unique),
                component: Some(attribute.component),
                ..AttributeBuilder::default_spec()
            }),
    {
        let mut ab: AttributeBuilder = Default::default();
        ab.multival = Some(attribute.multival);
        ab.unique = Some(attribute.unique);
        ab.component = Some(attribute.component);
        ab
    }

    pub fn value_type(&mut self, value_type: ValueType)
        ensures
            *final(self) == (AttributeBuilder { value_type: Some(value_type), ..*old(self) }),
    {
        self.value_type = Some(value_type);
    }

    pub fn multival(&mut self, multival: bool)
        ensures
            *final(self) == (AttributeBuilder { multival: Some(multival), ..*old(self) }),
    {
        self.multival = Some(multival);
    }

    /// Record that no uniqueness constraint is asserted.
    pub fn non_unique(&mut self)
        ensures
            *final(self) == (AttributeBuilder { unique: Some(None), ..*old(self) }),
    {
        self.unique = Some(None);
    }

    /// Set the uniqueness constraint; a helpful builder also flips
    /// `index` on for `Identity`.
    pub fn unique(&mut self, unique: Unique)
        ensures
            *final(self) == (AttributeBuilder {
                unique: Some(Some(unique)),
                index: if old(self).helpful && unique == Unique::Identity {
                    Some(true)
                } else {
                    old(self).index
                },
                ..*old(self)
            }),
    {
        if self.helpful && matches!(unique, Unique::Identity) {
            self.index = Some(true);
        }
        self.unique = Some(Some(unique));
    }

    pub fn index(&mut self, index: bool)
        ensures
            *final(self) == (AttributeBuilder { index: Some(index), ..*old(self) }),
    {
        self.index = Some(index);
    }

    /// Set the fulltext flag; a helpful builder also flips `index` on.
    pub fn fulltext(&mut self, fulltext: bool)
        ensures
            *final(self) == (AttributeBuilder {
                fulltext: Some(fulltext),
                index: if old(self).helpful && fulltext {
                    Some(true)
                } else {
                    old(self).index
                },
                ..*old(self)
            }),
    {
        self.fulltext = Some(fulltext);
        if self.helpful && fulltext {
            self.index = Some(true);
        }
    }

    pub fn component(&mut self, component: bool)
        ensures
            *final(self) == (AttributeBuilder { component: Some(component), ..*old(self) }),
    {
        self.component = Some(component);
    }

    pub fn no_history(&mut self, no_history: bool)
        ensures
            *final(self) == (AttributeBuilder { no_history: Some(no_history), ..*old(self) }),
    {
        self.no_history = Some(no_history);
    }

    /// An install must set `value_type`.
    pub fn validate_install_attribute(&self) -> (r: Result<(), CoreError>)
        ensures
            self.value_type is Some <==> r is Ok,
            self.value_type is None ==> (r matches Err(CoreError::BadSchemaAssertion(m))
                && m@ == "Schema attribute for new attribute does not set :db/valueType"@),
    {
        if self.value_type.is_none() {
            Err(
                CoreError::BadSchemaAssertion(
                    "Schema attribute for new attribute does not set :db/valueType".to_owned(),
                ),
            )
        } else {
            Ok(())
        }
    }

    /// An alteration may set neither `value_type` nor `fulltext`.
    pub fn validate_alter_attribute(&self) -> (r: Result<(), CoreError>)
        ensures
            (self.value_type is None && self.fulltext is None) <==> r is Ok,
            self.value_type is Some ==> (r matches Err(CoreError::BadSchemaAssertion(m))
                && m@ == "Schema alteration must not set :db/valueType"@),
            (self.value_type is None && self.fulltext is Some) ==> (r matches Err(
                CoreError::BadSchemaAssertion(m),
            ) && m@ == "Schema alteration must not set :db/fulltext"@),
    {
        if self.value_type.is_some() {
            Err(
                CoreError::BadSchemaAssertion(
                    "Schema alteration must not set :db/valueType".to_owned(),
                ),
            )
        } else if self.fulltext.is_some() {
            Err(
                CoreError::BadSchemaAssertion(
                    "Schema alteration must not set :db/fulltext".to_owned(),
                ),
            )
        } else {
            Ok(())
        }
    }

    /// Build a fresh attribute: set fields take their given values, the
    /// rest default.
    pub fn build(&self) -> (a: Attribute)
        ensures
            a.value_type == (match self.value_type {
                Some(vt) => vt,
                None => ValueType::Ref,
            }),
            a.multival == (match self.multival {
                Some(m) => m,
                None => false,
            }),
            a.unique == (match self.unique {
                Some(u) => u,
                None => None::<Unique>,
            }),
            a.index == (match self.index {
                Some(i) => i,
                None => false,
            }),
            a.fulltext == (match self.fulltext {
                Some(f) => f,
                None => false,
            }),
            a.component == (match self.component {
                Some(c) => c,
                None => false,
            }),
            a.no_history == (match self.no_history {
                Some(n) => n,
                None => false,
            }),
            a == self.spec_build(),
    {
        let mut attribute: Attribute = Default::default();
        if let Some(value_type) = self.value_type {
            attribute.value_type = value_type;
        }
        if let Some(fulltext) = self.fulltext {
            attribute.fulltext = fulltext;
        }
        if let Some(multival) = self.multival {
            attribute.multival = multival;
        }
        if let Some(unique) = self.unique {
            attribute.unique = unique;
        }
        if let Some(index) = self.index {
            attribute.index = index;
        }
        if let Some(component) = self.component {
            attribute.component = component;
        }
        if let Some(no_history) = self.no_history {
            attribute.no_history = no_history;
        }
        attribute
    }

    /// Apply the overrides to an installed attribute in place, and
    /// report the alteration kinds of the fields whose value changed. An
    /// absent `unique` override clears a present constraint: no unique
    /// constraint asserted means none.
    pub fn mutate(&self, attribute: &mut Attribute) -> (mutations: Vec<AttributeAlteration>)
        ensures
            final(attribute).value_type == old(attribute).value_type,
            final(attribute).fulltext == old(attribute).fulltext,
            final(attribute).multival == (match self.multival {
                Some(m) => m,
                None => old(attribute).multival,
            }),
            final(attribute).unique == (match self.unique {
                Some(u) => u,
                None => None::<Unique>,
            }),
            final(attribute).index == (match self.index {
                Some(i) => i,
                None => old(attribute).index,
            }),
            final(attribute).component == (match self.component {
                Some(c) => c,
                None => old(attribute).component,
            }),
            final(attribute).no_history == (match self.no_history {
                Some(n) => n,
                None => old(attribute).no_history,
            }),
            mutations@ == self.spec_mutations(*old(attribute)),
            *final(attribute) == self.spec_mutated(*old(attribute)),
    {
        let ghost a0 = *attribute;
        let ghost m1 = if changed_bool(self.multival, a0.multival) {
            Seq::empty().push(AttributeAlteration::Cardinality)
        } else {
            Seq::<AttributeAlteration>::empty()
        };
        let ghost m2 = if changed_unique(self.unique, a0.unique) {
            m1.push(AttributeAlteration::Unique)
        } else {
            m1
        };
        let ghost m3 = if changed_bool(self.index, a0.index) {
            m2.push(AttributeAlteration::Index)
        } else {
            m2
        };
        let ghost m4 = if changed_bool(self.component, a0.component) {
            m3.push(AttributeAlteration::IsComponent)
        } else {
            m3
        };
        let ghost m5 = if changed_bool(self.no_history, a0.no_history) {
            m4.push(AttributeAlteration::NoHistory)
        } else {
            m4
        };
        let mut mutations: Vec<AttributeAlteration> = Vec::new();
        if let Some(multival) = self.multival {
            if multival != attribute.multival {
                attribute.multival = multival;
                mutations.push(AttributeAlteration::Cardinality);
            }
        }
        proof {
            assert(mutations@ == m1);
        }
        if let Some(unique) = self.unique {
            if !eq_opt_unique(unique, attribute.unique) {
                attribute.unique = unique;
                mutations.push(AttributeAlteration::Unique);
            }
        } else if attribute.unique.is_some() {
            attribute.unique = None;
            mutations.push(AttributeAlteration::Unique);
        }
        proof {
            assert(mutations@ == m2);
        }
        if let Some(index) = self.index {
            if index != attribute.index {
                attribute.index = index;
                mutations.push(AttributeAlteration::Index);
            }
        }
        proof {
            assert(mutations@ == m3);
        }
        if let Some(component) = self.component {
            if component != attribute.component {
                attribute.component = component;
                mutations.push(AttributeAlteration::IsComponent);
            }
        }
        proof {
            assert(mutations@ == m4);
        }
        if let Some(no_history) = self.no_history {
            if no_history != attribute.no_history {
                attribute.no_history = no_history;
                mutations.push(AttributeAlteration::NoHistory);
            }
        }
        proof {
            assert(mutations@ == m5);
            assert(self.spec_mutations(a0) == m5);
        }
        mutations
    }
}

/// Equality of optional uniqueness constraints.
fn eq_opt_unique(a: Option<Unique>, b: Option<Unique>) -> (r: bool)
    ensures
        r == (a == b),
{
    match (a, b) {
        (None, None) => true,
        (Some(x), Some(y)) => x == y,
        _ => false,
    }
}

} // verus!
