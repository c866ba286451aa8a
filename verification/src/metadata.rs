//! Applying schema assertions to the attribute map: triples over the
//! well-known metadata attributes install fresh attributes or alter
//! installed ones, and the report names what changed.

use vstd::prelude::*;
use vstd::string::StringExecFns;
use crate::attributes::{Attribute, AttributeAlteration, AttributeBuilder};
use crate::entids;
use crate::errors::CoreError;
use crate::render::render_i64;
use crate::schema::lookup_attribute;
use crate::values::{TypedValue, ValueType};

verus! {

/// What a transaction changed about the attribute map.
#[derive(Clone, Debug)]
pub struct MetadataReport {
    /// Entids of freshly installed attributes.
    pub attributes_installed: Vec<i64>,
    /// Entids of altered attributes, each with its alteration records.
    pub attributes_altered: Vec<(i64, Vec<AttributeAlteration>)>,
}

/// The model of the altered-attributes list.
pub open spec fn altered_view(v: Vec<(i64, Vec<AttributeAlteration>)>) -> Seq<
    (i64, Seq<AttributeAlteration>),
> {
    Seq::new(v@.len(), |i: int| (v@[i].0, v@[i].1@))
}

impl MetadataReport {
    /// Whether any attribute was installed or altered.
    pub fn attributes_did_change(&self) -> (r: bool)
        ensures
            r == (self.attributes_installed@.len() > 0 || self.attributes_altered@.len() > 0),
    {
        self.attributes_installed.len() > 0 || self.attributes_altered.len() > 0
    }
}

/// The value type a `:db.type/*` entid denotes.
pub open spec fn spec_value_type_for_entid(e: i64) -> Option<ValueType> {
    if e == entids::DB_TYPE_REF {
        Some(ValueType::Ref)
    } else if e == entids::DB_TYPE_BOOLEAN {
        Some(ValueType::Boolean)
    } else if e == entids::DB_TYPE_INSTANT {
        Some(ValueType::Instant)
    } else if e == entids::DB_TYPE_LONG {
        Some(ValueType::Long)
    } else if e == entids::DB_TYPE_DOUBLE {
        Some(ValueType::Double)
    } else if e == entids::DB_TYPE_STRING {
        Some(ValueType::String)
    } else if e == entids::DB_TYPE_KEYWORD {
        Some(ValueType::Keyword)
    } else if e == entids::DB_TYPE_UUID {
        Some(ValueType::Uuid)
    } else if e == entids::DB_TYPE_BYTES {
        Some(ValueType::Bytes)
    } else {
        None
    }
}

fn value_type_for_entid(e: i64) -> (r: Option<ValueType>)
    ensures
        r == spec_value_type_for_entid(e),
{
    if e == entids::DB_TYPE_REF {
        Some(ValueType::Ref)
    } else if e == entids::DB_TYPE_BOOLEAN {
        Some(ValueType::Boolean)
    } else if e == entids::DB_TYPE_INSTANT {
        Some(ValueType::Instant)
    } else if e == entids::DB_TYPE_LONG {
        Some(ValueType::Long)
    } else if e == entids::DB_TYPE_DOUBLE {
        Some(ValueType::Double)
    } else if e == entids::DB_TYPE_STRING {
        Some(ValueType::String)
    } else if e == entids::DB_TYPE_KEYWORD {
        Some(ValueType::Keyword)
    } else if e == entids::DB_TYPE_UUID {
        Some(ValueType::Uuid)
    } else if e == entids::DB_TYPE_BYTES {
        Some(ValueType::Bytes)
    } else {
        None
    }
}

/// How one metadata assertion moves a builder on: a `:db/valueType`,
/// `:db/cardinality`, `:db/unique` value must be the matching ref; the
/// flag attributes take booleans; any other attribute leaves the builder
/// alone; `None` is an unrecognized value.
pub open spec fn spec_apply_metadata_assertion(
    b: AttributeBuilder,
    attr: i64,
    v: TypedValue,
) -> Option<AttributeBuilder> {
    if attr == entids::DB_VALUE_TYPE {
        match v {
            TypedValue::Ref(e) => match spec_value_type_for_entid(e) {
                Some(vt) => Some(AttributeBuilder { value_type: Some(vt), ..b }),
                None => None,
            },
            _ => None,
        }
    } else if attr == entids::DB_CARDINALITY {
        match v {
            TypedValue::Ref(e) => if e == entids::DB_CARDINALITY_MANY {
                Some(AttributeBuilder { multival: Some(true), ..b })
            } else if e == entids::DB_CARDINALITY_ONE {
                Some(AttributeBuilder { multival: Some(false), ..b })
            } else {
                None
            },
            _ => None,
        }
    } else if attr == entids::DB_UNIQUE {
        match v {
            TypedValue::Ref(e) => if e == entids::DB_UNIQUE_VALUE {
                Some(
                    AttributeBuilder {
                        unique: Some(Some(crate::attributes::Unique::Value)),
                        ..b
                    },
                )
            } else if e == entids::DB_UNIQUE_IDENTITY {
                Some(
                    AttributeBuilder {
                        unique: Some(Some(crate::attributes::Unique::Identity)),
                        ..b
                    },
                )
            } else {
                None
            },
            _ => None,
        }
    } else if attr == entids::DB_INDEX {
        match v {
            TypedValue::Boolean(x) => Some(AttributeBuilder { index: Some(x), ..b }),
            _ => None,
        }
    } else if attr == entids::DB_FULLTEXT {
        match v {
            TypedValue::Boolean(x) => Some(AttributeBuilder { fulltext: Some(x), ..b }),
            _ => None,
        }
    } else if attr == entids::DB_IS_COMPONENT {
        match v {
            TypedValue::Boolean(x) => Some(AttributeBuilder { component: Some(x), ..b }),
            _ => None,
        }
    } else if attr == entids::DB_NO_HISTORY {
        match v {
            TypedValue::Boolean(x) => Some(AttributeBuilder { no_history: Some(x), ..b }),
            _ => None,
        }
    } else {
        Some(b)
    }
}

fn apply_metadata_assertion(b: AttributeBuilder, attr: i64, v: &TypedValue) -> (r: Option<
    AttributeBuilder,
>)
    ensures
        r == spec_apply_metadata_assertion(b, attr, *v),
{
    if attr == entids::DB_VALUE_TYPE {
        match v {
            TypedValue::Ref(e) => match value_type_for_entid(*e) {
                Some(vt) => Some(AttributeBuilder { value_type: Some(vt), ..b }),
                None => None,
            },
            _ => None,
        }
    } else if attr == entids::DB_CARDINALITY {
        match v {
            TypedValue::Ref(e) => {
                if *e == entids::DB_CARDINALITY_MANY {
                    Some(AttributeBuilder { multival: Some(true), ..b })
                } else if *e == entids::DB_CARDINALITY_ONE {
                    Some(AttributeBuilder { multival: Some(false), ..b })
                } else {
                    None
                }
            },
            _ => None,
        }
    } else if attr == entids::DB_UNIQUE {
        match v {
            TypedValue::Ref(e) => {
                if *e == entids::DB_UNIQUE_VALUE {
                    Some(
                        AttributeBuilder {
                            unique: Some(Some(crate::attributes::Unique::Value)),
                            ..b
                        },
                    )
                } else if *e == entids::DB_UNIQUE_IDENTITY {
                    Some(
                        AttributeBuilder {
                            unique: Some(Some(crate::attributes::Unique::Identity)),
                            ..b
                        },
                    )
                } else {
                    None
                }
            },
            _ => None,
        }
    } else if attr == entids::DB_INDEX {
        match v {
            TypedValue::Boolean(x) => Some(AttributeBuilder { index: Some(*x), ..b }),
            _ => None,
        }
    } else if attr == entids::DB_FULLTEXT {
        match v {
            TypedValue::Boolean(x) => Some(AttributeBuilder { fulltext: Some(*x), ..b }),
            _ => None,
        }
    } else if attr == entids::DB_IS_COMPONENT {
        match v {
            TypedValue::Boolean(x) => Some(AttributeBuilder { component: Some(*x), ..b }),
            _ => None,
        }
    } else if attr == entids::DB_NO_HISTORY {
        match v {
            TypedValue::Boolean(x) => Some(AttributeBuilder { no_history: Some(*x), ..b }),
            _ => None,
        }
    } else {
        Some(b)
    }
}

/// Fold the metadata assertions about one entity, in order, over a
/// builder.
pub open spec fn fold_entity(
    b: AttributeBuilder,
    ts: Seq<(i64, i64, TypedValue)>,
    e: i64,
) -> Option<AttributeBuilder>
    decreases ts.len(),
{
    if ts.len() == 0 {
        Some(b)
    } else if ts[0].0 != e {
        fold_entity(b, ts.drop_first(), e)
    } else {
        match spec_apply_metadata_assertion(b, ts[0].1, ts[0].2) {
            Some(b2) => fold_entity(b2, ts.drop_first(), e),
            None => None,
        }
    }
}

/// The distinct entities the assertions speak of, in first-appearance
/// order, appended to `acc`.
pub open spec fn collect_entities(acc: Seq<i64>, ts: Seq<(i64, i64, TypedValue)>) -> Seq<i64>
    decreases ts.len(),
{
    if ts.len() == 0 {
        acc
    } else {
        collect_entities(
            if acc.contains(ts[0].0) {
                acc
            } else {
                acc.push(ts[0].0)
            },
            ts.drop_first(),
        )
    }
}

/// Replace the first entry keyed `e`.
pub open spec fn replace_attr(s: Seq<(i64, Attribute)>, e: i64, a: Attribute) -> Seq<
    (i64, Attribute),
>
    decreases s.len(),
{
    if s.len() == 0 {
        s
    } else if s[0].0 == e {
        seq![(e, a)] + s.drop_first()
    } else {
        seq![s[0]] + replace_attr(s.drop_first(), e, a)
    }
}

/// Process the entities in order against the evolving attribute map: an
/// entity with an installed attribute is an alteration, a fresh one an
/// install; `None` is a refused assertion.
pub open spec fn apply_entities(
    m: Seq<(i64, Attribute)>,
    inst: Seq<i64>,
    alt: Seq<(i64, Seq<AttributeAlteration>)>,
    ts: Seq<(i64, i64, TypedValue)>,
    es: Seq<i64>,
) -> Option<(Seq<(i64, Attribute)>, Seq<i64>, Seq<(i64, Seq<AttributeAlteration>)>)>
    decreases es.len(),
{
    if es.len() == 0 {
        Some((m, inst, alt))
    } else {
        let e = es[0];
        match fold_entity(AttributeBuilder::default_spec(), ts, e) {
            None => None,
            Some(b) => match lookup_attribute(m, e) {
                Some(a) => if !(b.value_type is None && b.fulltext is None) {
                    None
                } else {
                    apply_entities(
                        replace_attr(m, e, b.spec_mutated(a)),
                        inst,
                        alt.push((e, b.spec_mutations(a))),
                        ts,
                        es.drop_first(),
                    )
                },
                None => if b.value_type is None {
                    None
                } else {
                    apply_entities(
                        m.push((e, b.spec_build())),
                        inst.push(e),
                        alt,
                        ts,
                        es.drop_first(),
                    )
                },
            },
        }
    }
}

/// Membership test over a vector of entids.
fn vec_contains_entid(v: &Vec<i64>, e: i64) -> (r: bool)
    ensures
        r == v@.contains(e),
{
    let mut i: usize = 0;
    while i < v.len()
        invariant
            i <= v@.len(),
            forall|j: int| 0 <= j < i ==> v@[j] != e,
        decreases v@.len() - i,
    {
        if v[i] == e {
            return true;
        }
        i += 1;
    }
    false
}

/// The folded builder of one entity's assertions.
fn entity_builder(ts: &Vec<(i64, i64, TypedValue)>, e: i64) -> (r: Option<AttributeBuilder>)
    ensures
        r == fold_entity(AttributeBuilder::default_spec(), ts@, e),
{
    let ghost sq = ts@;
    let mut b: AttributeBuilder = Default::default();
    let mut i: usize = 0;
    proof {
        assert(sq.skip(0) =~= sq);
    }
    while i < ts.len()
        invariant
            i <= sq.len(),
            sq == ts@,
            fold_entity(AttributeBuilder::default_spec(), sq, e) == fold_entity(
                b,
                sq.skip(i as int),
                e,
            ),
        decreases sq.len() - i,
    {
        proof {
            assert(sq.skip(i as int)[0] == sq[i as int]);
            assert(sq.skip(i as int).drop_first() =~= sq.skip(i as int + 1));
        }
        let t = &ts[i];
        if t.0 == e {
            match apply_metadata_assertion(b, t.1, &t.2) {
                Some(b2) => {
                    b = b2;
                },
                None => {
                    return None;
                },
            }
        }
        i += 1;
    }
    proof {
        assert(sq.skip(i as int) =~= Seq::<(i64, i64, TypedValue)>::empty());
    }
    Some(b)
}

/// Find the first attribute entry keyed `e`, with its index.
fn find_attr(m: &Vec<(i64, Attribute)>, e: i64) -> (r: Option<(usize, Attribute)>)
    ensures
        match r {
            Some((idx, a)) => idx < m@.len() && m@[idx as int].0 == e && m@[idx as int].1 == a && (
            forall|j: int| 0 <= j < idx ==> (#[trigger] m@[j]).0 != e) && lookup_attribute(m@, e)
                == Some(a),
            None => lookup_attribute(m@, e) is None,
        },
{
    let ghost sq = m@;
    let mut i: usize = 0;
    proof {
        assert(sq.skip(0) =~= sq);
    }
    while i < m.len()
        invariant
            i <= sq.len(),
            sq == m@,
            lookup_attribute(sq, e) == lookup_attribute(sq.skip(i as int), e),
            forall|j: int| 0 <= j < i ==> (#[trigger] sq[j]).0 != e,
        decreases sq.len() - i,
    {
        proof {
            assert(sq.skip(i as int)[0] == sq[i as int]);
            assert(sq.skip(i as int).drop_first() =~= sq.skip(i as int + 1));
        }
        let entry = &m[i];
        if entry.0 == e {
            return Some((i, entry.1));
        }
        i += 1;
    }
    proof {
        assert(sq.skip(i as int) =~= Seq::<(i64, Attribute)>::empty());
    }
    None
}

/// Replacing the first entry keyed `e` is updating at its index.
proof fn lemma_replace_attr_update(s: Seq<(i64, Attribute)>, e: i64, a: Attribute, idx: int)
    requires
        0 <= idx < s.len(),
        s[idx].0 == e,
        forall|j: int| 0 <= j < idx ==> (#[trigger] s[j]).0 != e,
    ensures
        replace_attr(s, e, a) == s.update(idx, (e, a)),
    decreases s.len(),
{
    if idx == 0 {
        assert(replace_attr(s, e, a) == seq![(e, a)] + s.drop_first());
        assert(seq![(e, a)] + s.drop_first() =~= s.update(0, (e, a)));
    } else {
        assert(forall|j: int|
            0 <= j < idx - 1 ==> (#[trigger] s.drop_first()[j]) == s[j + 1]);
        assert(s.drop_first()[idx - 1] == s[idx]);
        lemma_replace_attr_update(s.drop_first(), e, a, idx - 1);
        assert(seq![s[0]] + s.drop_first().update(idx - 1, (e, a)) =~= s.update(idx, (e, a)));
    }
}

/// Copy an attribute map.
fn copy_attr_entries(v: &Vec<(i64, Attribute)>) -> (r: Vec<(i64, Attribute)>)
    ensures
        r@ == v@,
{
    let mut r: Vec<(i64, Attribute)> = Vec::new();
    let mut i: usize = 0;
    while i < v.len()
        invariant
            i <= v@.len(),
            r@ == v@.take(i as int),
        decreases v@.len() - i,
    {
        let entry = &v[i];
        r.push((entry.0, entry.1));
        proof {
            assert(r@ =~= v@.take(i as int + 1));
        }
        i += 1;
    }
    proof {
        assert(v@.take(i as int) =~= v@);
    }
    r
}

/// Apply the metadata assertions to the attribute map. Each asserted
/// entity becomes an install (fresh entid; `:db/valueType` must be set)
/// or an alteration (installed entid; neither `:db/valueType` nor
/// `:db/fulltext` may be set), and the report names what changed. On an
/// error the map is left untouched.
pub fn update_attribute_map_from_entid_triples(
    attribute_map: &mut Vec<(i64, Attribute)>,
    assertions: &Vec<(i64, i64, TypedValue)>,
) -> (r: Result<MetadataReport, CoreError>)
    ensures
        match apply_entities(
            old(attribute_map)@,
            Seq::empty(),
            Seq::empty(),
            assertions@,
            collect_entities(Seq::empty(), assertions@),
        ) {
            Some((m2, inst, alt)) => r matches Ok(report) && final(attribute_map)@ == m2
                && report.attributes_installed@ == inst && altered_view(report.attributes_altered)
                == alt,
            None => r matches Err(err) && err matches CoreError::BadSchemaAssertion(_)
                && final(attribute_map)@ == old(attribute_map)@,
        },
{
    let ghost ts = assertions@;
    let ghost m0 = attribute_map@;

    // The distinct entities, in first-appearance order.
    let mut es: Vec<i64> = Vec::new();
    let mut i: usize = 0;
    proof {
        assert(ts.skip(0) =~= ts);
    }
    while i < assertions.len()
        invariant
            i <= ts.len(),
            ts == assertions@,
            collect_entities(es@, ts.skip(i as int)) == collect_entities(Seq::empty(), ts),
        decreases ts.len() - i,
    {
        proof {
            assert(ts.skip(i as int)[0] == ts[i as int]);
            assert(ts.skip(i as int).drop_first() =~= ts.skip(i as int + 1));
        }
        let e = assertions[i].0;
        if !vec_contains_entid(&es, e) {
            es.push(e);
        }
        i += 1;
    }
    proof {
        assert(ts.skip(i as int) =~= Seq::<(i64, i64, TypedValue)>::empty());
    }
    let ghost es_all = es@;

    // Process the entities against a working copy of the map.
    let mut m = copy_attr_entries(attribute_map);
    let mut installed: Vec<i64> = Vec::new();
    let mut altered: Vec<(i64, Vec<AttributeAlteration>)> = Vec::new();
    let mut k: usize = 0;
    proof {
        assert(es_all.skip(0) =~= es_all);
        assert(altered_view(altered) =~= Seq::<(i64, Seq<AttributeAlteration>)>::empty());
    }
    while k < es.len()
        invariant
            k <= es_all.len(),
            es_all == es@,
            ts == assertions@,
            attribute_map@ == old(attribute_map)@,
            m0 == old(attribute_map)@,
            es_all == collect_entities(Seq::empty(), ts),
            apply_entities(m0, Seq::empty(), Seq::empty(), ts, es_all) == apply_entities(
                m@,
                installed@,
                altered_view(altered),
                ts,
                es_all.skip(k as int),
            ),
        decreases es_all.len() - k,
    {
        proof {
            assert(es_all.skip(k as int)[0] == es_all[k as int]);
            assert(es_all.skip(k as int).drop_first() =~= es_all.skip(k as int + 1));
        }
        let e = es[k];
        let b = match entity_builder(assertions, e) {
            Some(b) => b,
            None => {
                proof {
                    assert(es_all.skip(k as int).len() > 0);
                    assert(es_all.skip(k as int)[0] == e);
                    assert(fold_entity(AttributeBuilder::default_spec(), ts, e) is None);
                    assert(apply_entities(
                        m@,
                        installed@,
                        altered_view(altered),
                        ts,
                        es_all.skip(k as int),
                    ) is None);
                    assert(apply_entities(m0, Seq::empty(), Seq::empty(), ts, es_all) is None);
                }
                let mut msg =
                    "Unrecognized value for a schema characteristic of entid: ".to_owned();
                msg.append(render_i64(e).as_str());
                return Err(CoreError::BadSchemaAssertion(msg));
            },
        };
        match find_attr(&m, e) {
            Some((idx, a)) => {
                match b.validate_alter_attribute() {
                    Ok(()) => {},
                    Err(err) => {
                        return Err(err);
                    },
                }
                let mut a2 = a;
                let muts = b.mutate(&mut a2);
                proof {
                    lemma_replace_attr_update(m@, e, a2, idx as int);
                }
                m[idx] = (e, a2);
                let ghost alt_prev = altered_view(altered);
                altered.push((e, muts));
                proof {
                    assert(altered_view(altered) =~= alt_prev.push((e, muts@)));
                }
            },
            None => {
                match b.validate_install_attribute() {
                    Ok(()) => {},
                    Err(err) => {
                        return Err(err);
                    },
                }
                m.push((e, b.build()));
                installed.push(e);
            },
        }
        k += 1;
    }
    proof {
        assert(es_all.skip(k as int) =~= Seq::<i64>::empty());
    }
    *attribute_map = m;
    Ok(MetadataReport { attributes_installed: installed, attributes_altered: altered })
}

} // verus!
