//! The transactor over an in-memory datom store: assertions and
//! retractions enter as symbolic data, tempids resolve by upsert or
//! fresh allocation, and a transaction lands atomically or not at all.
//!
//! Persistence belongs to the storage collaborator; this store keeps the
//! current assertions, which is what the query evaluator reads.

use vstd::prelude::*;
use crate::attributes::Unique;
use crate::entids;
use crate::errors::CoreError;
use crate::schema::{Schema, SchemaBuilding, SchemaTypeChecking};
use crate::values::{Keyword, RawValue, TypedValue};

verus! {

/// One assertion of the current state: entity, attribute, value, and
/// the transaction that asserted it.
#[derive(Clone, Debug, PartialEq, Eq)]
pub struct Datom {
    pub e: i64,
    pub a: i64,
    pub v: TypedValue,
    pub tx: i64,
}

/// The entity position of a transacted operation: an entid, an ident,
/// a string tempid, or a lookup ref naming an entity by a unique
/// attribute's value.
#[derive(Debug)]
pub enum OpEntity {
    Entid(i64),
    Ident(Keyword),
    Tempid(String),
    LookupRef(Keyword, RawValue),
}

/// The attribute position of a transacted operation.
#[derive(Clone, Debug, PartialEq, Eq)]
pub enum OpAttribute {
    Entid(i64),
    Ident(Keyword),
}

/// Whether an operation asserts or retracts.
#[derive(Clone, Copy, Debug, PartialEq, Eq, Structural)]
pub enum Op {
    Add,
    Retract,
}

/// One operation of a transaction.
#[derive(Debug)]
pub struct Assertion {
    pub op: Op,
    pub e: OpEntity,
    pub a: OpAttribute,
    pub v: RawValue,
}

/// What a committed transaction reports: its id, its instant, and how
/// each string tempid resolved.
#[derive(Clone, Debug)]
pub struct TxReport {
    pub tx_id: i64,
    pub tx_instant: i64,
    pub tempids: Vec<(String, i64)>,
}

/// The store: a schema snapshot, the current datoms, and the allocation
/// cursors.
#[derive(Clone, Debug)]
pub struct Store {
    pub schema: Schema,
    pub datoms: Vec<Datom>,
    pub next_entid: i64,
    pub next_tx: i64,
    pub last_tx_instant: i64,
}

/// Whether some operation's entity position carries this tempid.
pub open spec fn has_tempid(ops: Seq<Assertion>, s: Seq<char>) -> bool {
    exists|i: int|
        0 <= i < ops.len() && ((#[trigger] ops[i]).e matches OpEntity::Tempid(t) && t@ == s)
}

impl Store {
    /// Well-formedness: positive entids throughout, and positive
    /// allocation cursors.
    pub open spec fn wf(self) -> bool {
        &&& forall|i: int|
            0 <= i < self.datoms@.len() ==> (#[trigger] self.datoms@[i]).e > 0
                && self.datoms@[i].a > 0 && self.datoms@[i].tx > 0
        &&& self.next_entid > 0
        &&& self.next_tx > 0
        &&& self.last_tx_instant >= 0
    }

    /// A fresh store over a schema, allocating user entids and
    /// transaction ids above the well-known range.
    pub fn new(schema: Schema) -> (s: Store)
        ensures
            s.wf(),
            s.schema == schema,
            s.datoms@.len() == 0,
    {
        Store { schema, datoms: Vec::new(), next_entid: 65536, next_tx: 1000, last_tx_instant: 0 }
    }
}

/// The first mapping of a tempid in the report being built.
pub open spec fn tempid_lookup(m: Seq<(String, i64)>, s: Seq<char>) -> Option<i64>
    decreases m.len(),
{
    if m.len() == 0 {
        None
    } else if m[0].0@ == s {
        Some(m[0].1)
    } else {
        tempid_lookup(m.drop_first(), s)
    }
}

/// Appending an entry leaves present keys alone and serves the new one.
proof fn lemma_tempid_lookup_push(m: Seq<(String, i64)>, x: (String, i64), s: Seq<char>)
    ensures
        tempid_lookup(m.push(x), s) == (match tempid_lookup(m, s) {
            Some(e) => Some(e),
            None => if x.0@ == s {
                Some(x.1)
            } else {
                None
            },
        }),
    decreases m.len(),
{
    if m.len() == 0 {
        assert(m.push(x).drop_first() =~= Seq::<(String, i64)>::empty());
        assert(m.push(x)[0] == x);
        assert(m.push(x).len() == 1);
        if x.0@ == s {
            assert(tempid_lookup(m.push(x), s) == Some(x.1));
        } else {
            assert(tempid_lookup(m.push(x), s) == tempid_lookup(
                m.push(x).drop_first(),
                s,
            ));
        }
    } else {
        assert(m.push(x)[0] == m[0]);
        assert(m.push(x).drop_first() =~= m.drop_first().push(x));
        lemma_tempid_lookup_push(m.drop_first(), x, s);
        if m[0].0@ == s {
            assert(tempid_lookup(m, s) == Some(m[0].1));
            assert(tempid_lookup(m.push(x), s) == Some(m.push(x)[0].1));
        }
    }
}

/// A key that misses has no entry.
proof fn lemma_tempid_lookup_none_distinct(m: Seq<(String, i64)>, s: Seq<char>)
    requires
        tempid_lookup(m, s) is None,
    ensures
        forall|p: int| 0 <= p < m.len() ==> (#[trigger] m[p]).0@ != s,
    decreases m.len(),
{
    if m.len() > 0 {
        lemma_tempid_lookup_none_distinct(m.drop_first(), s);
        assert forall|p: int| 0 <= p < m.len() implies (#[trigger] m[p]).0@ != s by {
            if p > 0 {
                assert(m.drop_first()[p - 1] == m[p]);
            }
        }
    }
}

/// A key that hits maps to some entry's entid.
proof fn lemma_tempid_lookup_witness(m: Seq<(String, i64)>, s: Seq<char>, e: i64)
    requires
        tempid_lookup(m, s) == Some(e),
    ensures
        exists|p: int| 0 <= p < m.len() && (#[trigger] m[p]).1 == e,
    decreases m.len(),
{
    if m.len() > 0 && m[0].0@ != s {
        lemma_tempid_lookup_witness(m.drop_first(), s, e);
        let p = choose|p: int| 0 <= p < m.drop_first().len() && (#[trigger] m.drop_first()[p]).1 == e;
        assert(m[p + 1] == m.drop_first()[p]);
    }
}

/// Find a tempid's mapping.
fn tempid_lookup_exec(m: &Vec<(String, i64)>, s: &String) -> (r: Option<i64>)
    ensures
        r == tempid_lookup(m@, s@),
{
    let ghost sq = m@;
    let mut i: usize = 0;
    proof {
        assert(sq.skip(0) =~= sq);
    }
    while i < m.len()
        invariant
            i <= sq.len(),
            sq == m@,
            tempid_lookup(sq, s@) == tempid_lookup(sq.skip(i as int), s@),
        decreases sq.len() - i,
    {
        proof {
            assert(sq.skip(i as int)[0] == sq[i as int]);
            assert(sq.skip(i as int).drop_first() =~= sq.skip(i as int + 1));
        }
        if String::eq(&m[i].0, s) {
            return Some(m[i].1);
        }
        i += 1;
    }
    proof {
        assert(sq.skip(i as int) =~= Seq::<(String, i64)>::empty());
    }
    None
}

/// The model of the datom list: entity, attribute, value model, tx.
pub open spec fn datoms_view(s: Seq<Datom>) -> Seq<(i64, i64, crate::values::Value, i64)> {
    Seq::new(s.len(), |i: int| (s[i].e, s[i].a, s[i].v@, s[i].tx))
}

/// The datoms left after removing an entity's assertions under an
/// attribute: all of them, or only those carrying one value.
pub open spec fn spec_remove_eav(
    d: Seq<(i64, i64, crate::values::Value, i64)>,
    e: i64,
    a: i64,
    v: Option<crate::values::Value>,
) -> Seq<(i64, i64, crate::values::Value, i64)>
    decreases d.len(),
{
    if d.len() == 0 {
        d
    } else {
        let hit = d[0].0 == e && d[0].1 == a && (match v {
            Some(vv) => d[0].2 == vv,
            None => true,
        });
        if hit {
            spec_remove_eav(d.drop_first(), e, a, v)
        } else {
            seq![d[0]] + spec_remove_eav(d.drop_first(), e, a, v)
        }
    }
}

/// Applying the resolved operations in order: an assertion replaces
/// under cardinality-one and adds under cardinality-many, a retraction
/// removes the exact datom.
pub open spec fn spec_apply(
    d: Seq<(i64, i64, crate::values::Value, i64)>,
    rops: Seq<(Op, i64, i64, bool, crate::values::Value)>,
    tx: i64,
) -> Seq<(i64, i64, crate::values::Value, i64)>
    decreases rops.len(),
{
    if rops.len() == 0 {
        d
    } else {
        let (op, e, a, multival, vv) = rops[0];
        let d2 = match op {
            Op::Add => spec_remove_eav(
                d,
                e,
                a,
                if multival {
                    Some(vv)
                } else {
                    None
                },
            ).push((e, a, vv, tx)),
            Op::Retract => spec_remove_eav(d, e, a, Some(vv)),
        };
        spec_apply(d2, rops.drop_first(), tx)
    }
}

/// The first entity holding `v` under the attribute `a`, read from the
/// datoms in order.
pub open spec fn find_av(datoms: Seq<Datom>, a: i64, v: crate::values::Value) -> Option<i64>
    decreases datoms.len(),
{
    if datoms.len() == 0 {
        None
    } else if datoms[0].a == a && datoms[0].v@ == v {
        Some(datoms[0].e)
    } else {
        find_av(datoms.drop_first(), a, v)
    }
}

/// Search the current datoms for an entity holding `v` under the
/// attribute `a`.
fn find_entity_by_av(datoms: &Vec<Datom>, a: i64, v: &TypedValue) -> (r: Option<i64>)
    ensures
        r == find_av(datoms@, a, v@),
        match r {
            Some(e) => exists|i: int|
                0 <= i < datoms@.len() && (#[trigger] datoms@[i]).a == a && datoms@[i].v@ == v@
                    && datoms@[i].e == e,
            None => true,
        },
{
    let ghost sq = datoms@;
    let mut i: usize = 0;
    proof {
        assert(sq.skip(0) =~= sq);
    }
    while i < datoms.len()
        invariant
            i <= sq.len(),
            sq == datoms@,
            find_av(sq, a, v@) == find_av(sq.skip(i as int), a, v@),
        decreases sq.len() - i,
    {
        proof {
            assert(sq.skip(i as int)[0] == sq[i as int]);
            assert(sq.skip(i as int).drop_first() =~= sq.skip(i as int + 1));
        }
        let d = &datoms[i];
        if d.a == a && d.v.same(v) {
            return Some(d.e);
        }
        i += 1;
    }
    proof {
        assert(sq.skip(i as int) =~= Seq::<Datom>::empty());
    }
    None
}

/// The resolution of a transaction's operations, read as a function:
/// attribute and entity resolve through the registry, the value coerces
/// under the attribute's type, and a tempid upserts through an identity
/// attribute or allocates the next entid. `None` exactly when the
/// transaction is refused.
pub open spec fn resolve_ops(
    idents: Seq<(Keyword, i64)>,
    attrs: Seq<(i64, crate::attributes::Attribute)>,
    datoms: Seq<Datom>,
    tmap: Seq<(String, i64)>,
    next: int,
    racc: Seq<(Op, i64, i64, bool, crate::values::Value)>,
    ops: Seq<Assertion>,
) -> Option<(Seq<(String, i64)>, int, Seq<(Op, i64, i64, bool, crate::values::Value)>)>
    decreases ops.len(),
{
    if ops.len() == 0 {
        Some((tmap, next, racc))
    } else {
        let op = ops[0];
        let ae = match op.a {
            OpAttribute::Entid(x) => Some(x),
            OpAttribute::Ident(kw) => crate::schema::lookup_entid(idents, kw@),
        };
        match ae {
            None => None,
            Some(ae) => if ae <= 0 {
                None
            } else {
                match crate::schema::lookup_attribute(attrs, ae) {
                    None => None,
                    Some(att) => match crate::schema::coerced_view(idents, op.v, att.value_type) {
                        None => None,
                        Some(vv) => match op.e {
                            OpEntity::Entid(x) => if x <= 0 {
                                None
                            } else {
                                resolve_ops(
                                    idents,
                                    attrs,
                                    datoms,
                                    tmap,
                                    next,
                                    racc.push((op.op, x, ae, att.multival, vv)),
                                    ops.drop_first(),
                                )
                            },
                            OpEntity::Ident(kw) => match crate::schema::lookup_entid(
                                idents,
                                kw@,
                            ) {
                                None => None,
                                Some(x) => if x <= 0 {
                                    None
                                } else {
                                    resolve_ops(
                                        idents,
                                        attrs,
                                        datoms,
                                        tmap,
                                        next,
                                        racc.push((op.op, x, ae, att.multival, vv)),
                                        ops.drop_first(),
                                    )
                                },
                            },
                            OpEntity::LookupRef(rkw, rraw) => match crate::schema::lookup_entid(
                                idents,
                                rkw@,
                            ) {
                                None => None,
                                Some(re) => if re <= 0 {
                                    None
                                } else {
                                    match crate::schema::lookup_attribute(attrs, re) {
                                        None => None,
                                        Some(ratt) => if ratt.unique is None {
                                            None
                                        } else {
                                            match crate::schema::coerced_view(
                                                idents,
                                                rraw,
                                                ratt.value_type,
                                            ) {
                                                None => None,
                                                Some(rvv) => match find_av(datoms, re, rvv) {
                                                    None => None,
                                                    Some(found) => resolve_ops(
                                                        idents,
                                                        attrs,
                                                        datoms,
                                                        tmap,
                                                        next,
                                                        racc.push(
                                                            (
                                                                op.op,
                                                                found,
                                                                ae,
                                                                att.multival,
                                                                vv,
                                                            ),
                                                        ),
                                                        ops.drop_first(),
                                                    ),
                                                },
                                            }
                                        },
                                    }
                                },
                            },
                            OpEntity::Tempid(t) => match tempid_lookup(tmap, t@) {
                                Some(known) => if att.unique == Some(Unique::Identity) && (
                                match find_av(datoms, ae, vv) {
                                    Some(found) => found != known,
                                    None => false,
                                }) {
                                    None
                                } else {
                                    resolve_ops(
                                        idents,
                                        attrs,
                                        datoms,
                                        tmap,
                                        next,
                                        racc.push((op.op, known, ae, att.multival, vv)),
                                        ops.drop_first(),
                                    )
                                },
                                None => if att.unique == Some(Unique::Identity) && find_av(
                                    datoms,
                                    ae,
                                    vv,
                                ) is Some {
                                    resolve_ops(
                                        idents,
                                        attrs,
                                        datoms,
                                        tmap.push((t, find_av(datoms, ae, vv)->0)),
                                        next,
                                        racc.push(
                                            (
                                                op.op,
                                                find_av(datoms, ae, vv)->0,
                                                ae,
                                                att.multival,
                                                vv,
                                            ),
                                        ),
                                        ops.drop_first(),
                                    )
                                } else {
                                    resolve_ops(
                                        idents,
                                        attrs,
                                        datoms,
                                        tmap.push((t, next as i64)),
                                        next + 1,
                                        racc.push((op.op, next as i64, ae, att.multival, vv)),
                                        ops.drop_first(),
                                    )
                                },
                            },
                        },
                    },
                }
            },
        }
    }
}

/// A resolved operation, ready to apply.
struct ResolvedOp {
    op: Op,
    e: i64,
    a: i64,
    multival: bool,
    v: TypedValue,
}

/// The model of the resolved-operation list.
spec fn resolved_view(s: Seq<ResolvedOp>) -> Seq<(Op, i64, i64, bool, crate::values::Value)> {
    Seq::new(s.len(), |i: int| (s[i].op, s[i].e, s[i].a, s[i].multival, s[i].v@))
}

/// Copy the current datoms, field for field.
fn copy_datoms(v: &Vec<Datom>) -> (r: Vec<Datom>)
    ensures
        r@.len() == v@.len(),
        forall|p: int|
            0 <= p < v@.len() ==> (#[trigger] r@[p]).e == v@[p].e && r@[p].a == v@[p].a && r@[p].tx
                == v@[p].tx && r@[p].v@ == v@[p].v@,
        datoms_view(r@) == datoms_view(v@),
{
    let mut r: Vec<Datom> = Vec::new();
    let mut i: usize = 0;
    while i < v.len()
        invariant
            i <= v@.len(),
            r@.len() == i,
            forall|p: int|
                0 <= p < i ==> (#[trigger] r@[p]).e == v@[p].e && r@[p].a == v@[p].a && r@[p].tx
                    == v@[p].tx && r@[p].v@ == v@[p].v@,
        decreases v@.len() - i,
    {
        let d = &v[i];
        r.push(Datom { e: d.e, a: d.a, v: d.v.duplicate(), tx: d.tx });
        i += 1;
    }
    proof {
        assert(datoms_view(r@) =~= datoms_view(v@));
    }
    r
}

/// Remove the datoms of an entity under an attribute: all of them, or
/// only those carrying one value. Positivity of the fields is kept.
fn remove_datoms_eav(datoms: &mut Vec<Datom>, e: i64, a: i64, v: Option<&TypedValue>)
    requires
        forall|p: int|
            0 <= p < old(datoms)@.len() ==> (#[trigger] old(datoms)@[p]).e > 0
                && old(datoms)@[p].a > 0 && old(datoms)@[p].tx > 0,
    ensures
        forall|p: int|
            0 <= p < final(datoms)@.len() ==> (#[trigger] final(datoms)@[p]).e > 0
                && final(datoms)@[p].a > 0 && final(datoms)@[p].tx > 0,
        datoms_view(final(datoms)@) == spec_remove_eav(
            datoms_view(old(datoms)@),
            e,
            a,
            match v {
                Some(tv) => Some(tv@),
                None => None,
            },
        ),
{
    let ghost orig = datoms@;
    let ghost dv = datoms_view(orig);
    let ghost vv = match v {
        Some(tv) => Some(tv@),
        None => None,
    };
    let mut kept: Vec<Datom> = Vec::new();
    let mut i: usize = 0;
    proof {
        assert(dv.len() == orig.len());
        assert(dv.skip(0) =~= dv);
    }
    while i < datoms.len()
        invariant
            i <= datoms@.len(),
            datoms@ == orig,
            dv == datoms_view(orig),
            dv.len() == orig.len(),
            vv == (match v {
                Some(tv) => Some(tv@),
                None => None::<crate::values::Value>,
            }),
            forall|p: int|
                0 <= p < orig.len() ==> (#[trigger] orig[p]).e > 0 && orig[p].a > 0 && orig[p].tx
                    > 0,
            forall|p: int|
                0 <= p < kept@.len() ==> (#[trigger] kept@[p]).e > 0 && kept@[p].a > 0
                    && kept@[p].tx > 0,
            spec_remove_eav(dv, e, a, vv) == datoms_view(kept@) + spec_remove_eav(
                dv.skip(i as int),
                e,
                a,
                vv,
            ),
        decreases datoms@.len() - i,
    {
        proof {
            assert(dv.skip(i as int)[0] == dv[i as int]);
            assert(dv.skip(i as int).drop_first() =~= dv.skip(i as int + 1));
        }
        let ghost kept_prev = datoms_view(kept@);
        let d = &datoms[i];
        let matches_target = d.e == e && d.a == a && (match v {
            Some(tv) => d.v.same(tv),
            None => true,
        });
        if !matches_target {
            kept.push(Datom { e: d.e, a: d.a, v: d.v.duplicate(), tx: d.tx });
            proof {
                assert(datoms_view(kept@) =~= kept_prev.push(dv[i as int]));
                assert(kept_prev.push(dv[i as int]) + spec_remove_eav(
                    dv.skip(i as int + 1),
                    e,
                    a,
                    vv,
                ) =~= kept_prev + (seq![dv[i as int]] + spec_remove_eav(
                    dv.skip(i as int + 1),
                    e,
                    a,
                    vv,
                )));
            }
        }
        i += 1;
    }
    proof {
        assert(dv.skip(i as int) =~= Seq::<(i64, i64, crate::values::Value, i64)>::empty());
        assert(datoms_view(kept@) + spec_remove_eav(dv.skip(i as int), e, a, vv) =~= datoms_view(
            kept@,
        ));
    }
    *datoms = kept;
}

impl Store {
    /// Transact a vector of operations atomically. A tempid resolves
    /// through any `unique = Identity` attribute it is asserted under,
    /// or allocates a fresh entid; the report maps every tempid of the
    /// input exactly once, to a positive entid. Transaction ids grow by
    /// one and instants never decrease. On any error the store is left
    /// untouched.
    #[verifier::loop_isolation(false)]
    pub fn transact(&mut self, assertions: Vec<Assertion>, now: i64) -> (r: Result<
        TxReport,
        CoreError,
    >)
        requires
            old(self).wf(),
            now >= 0,
            old(self).next_tx < 0x4000_0000_0000_0000,
            old(self).next_entid + assertions@.len() < 0x4000_0000_0000_0000,
        ensures
            final(self).wf(),
            r is Err ==> *final(self) == *old(self),
            r matches Ok(report) ==> {
                &&& forall|i: int, j: int|
                    0 <= i < j < report.tempids@.len() ==> (#[trigger] report.tempids@[i]).0@ != (
                    #[trigger] report.tempids@[j]).0@
                &&& forall|i: int|
                    0 <= i < report.tempids@.len() ==> (#[trigger] report.tempids@[i]).1 > 0
                &&& forall|i: int|
                    0 <= i < report.tempids@.len() ==> has_tempid(
                        assertions@,
                        (#[trigger] report.tempids@[i]).0@,
                    )
                &&& forall|i: int|
                    0 <= i < assertions@.len() ==> match (#[trigger] assertions@[i]).e {
                        OpEntity::Tempid(t) => tempid_lookup(report.tempids@, t@) is Some,
                        _ => true,
                    }
                &&& report.tx_id == old(self).next_tx
                &&& report.tx_id > 0
                &&& final(self).next_tx == old(self).next_tx + 1
                &&& report.tx_instant >= old(self).last_tx_instant
                &&& report.tx_instant >= now
                &&& final(self).last_tx_instant == report.tx_instant
                &&& final(self).schema == old(self).schema
            },
            match resolve_ops(
                old(self).schema.ident_map@,
                old(self).schema.attribute_map@,
                old(self).datoms@,
                Seq::empty(),
                old(self).next_entid as int,
                Seq::empty(),
                assertions@,
            ) {
                Some((tmap, next2, rops)) => r matches Ok(report) && report.tempids@ == tmap
                    && final(self).next_entid as int == next2 && datoms_view(final(self).datoms@)
                    == spec_apply(
                    datoms_view(old(self).datoms@),
                    rops,
                    old(self).next_tx,
                ).push(
                    (
                        old(self).next_tx,
                        entids::DB_TX_INSTANT,
                        crate::values::Value::Instant(
                            (if now > old(self).last_tx_instant {
                                now
                            } else {
                                old(self).last_tx_instant
                            }) as int,
                        ),
                        old(self).next_tx,
                    ),
                ),
                None => r is Err,
            },
            assertions@.len() == 0 ==> r is Ok,
    {
        let ghost ops = assertions@;
        let tx_id = self.next_tx;
        let tx_instant = if now > self.last_tx_instant {
            now
        } else {
            self.last_tx_instant
        };

        // Resolve every operation against the schema, allocating or
        // upserting tempids as they appear.
        let mut tempids: Vec<(String, i64)> = Vec::new();
        let mut resolved: Vec<ResolvedOp> = Vec::new();
        let mut next_entid = self.next_entid;
        let n = assertions.len();
        let mut rest = assertions;
        let mut i: usize = 0;
        let ghost idents0 = self.schema.ident_map@;
        let ghost attrs0 = self.schema.attribute_map@;
        let ghost datoms0 = self.datoms@;
        proof {
            assert(ops.skip(0) =~= ops);
            assert(resolved_view(resolved@) =~= Seq::<
                (Op, i64, i64, bool, crate::values::Value),
            >::empty());
        }
        while i < n
            invariant
                i <= n,
                rest@ == ops.skip(i as int),
                *self == *old(self),
                old(self).next_entid <= next_entid,
                next_entid - old(self).next_entid <= i,
                resolve_ops(
                    idents0,
                    attrs0,
                    datoms0,
                    Seq::empty(),
                    old(self).next_entid as int,
                    Seq::empty(),
                    ops,
                ) == resolve_ops(
                    idents0,
                    attrs0,
                    datoms0,
                    tempids@,
                    next_entid as int,
                    resolved_view(resolved@),
                    ops.skip(i as int),
                ),
                forall|p: int|
                    0 <= p < resolved@.len() ==> (#[trigger] resolved@[p]).e > 0
                        && resolved@[p].a > 0,
                forall|p: int, q: int|
                    0 <= p < q < tempids@.len() ==> (#[trigger] tempids@[p]).0@ != (
                    #[trigger] tempids@[q]).0@,
                forall|p: int| 0 <= p < tempids@.len() ==> (#[trigger] tempids@[p]).1 > 0,
                forall|p: int|
                    0 <= p < tempids@.len() ==> has_tempid(
                        ops.take(i as int),
                        (#[trigger] tempids@[p]).0@,
                    ),
                forall|p: int|
                    0 <= p < i ==> match (#[trigger] ops[p]).e {
                        OpEntity::Tempid(t) => tempid_lookup(tempids@, t@) is Some,
                        _ => true,
                    },
            decreases n - i,
        {
            proof {
                assert(ops.skip(i as int)[0] == ops[i as int]);
                assert(ops.skip(i as int).drop_first() =~= ops.skip(i as int + 1));
            }
            let ghost tempids_prev = tempids@;
            let ghost resolved_prev = resolved_view(resolved@);
            let Assertion { op, e, a, v } = rest.remove(0);

            // The attribute first: its metadata types the value, and an
            // identity attribute lets a tempid upsert.
            let attr_entid = match a {
                OpAttribute::Entid(x) => x,
                OpAttribute::Ident(kw) => match self.schema.require_entid(&kw) {
                    Ok(x) => x,
                    Err(err) => {
                        return Err(err);
                    },
                },
            };
            if attr_entid <= 0 {
                return Err(CoreError::UnrecognizedEntid(attr_entid));
            }
            let attribute = match self.schema.require_attribute_for_entid(attr_entid) {
                Ok(at) => at,
                Err(err) => {
                    return Err(err);
                },
            };
            let ghost v0 = v;
            let tvr = self.schema.to_typed_value(v, attribute.value_type);
            proof {
                crate::schema::lemma_coercion_functional(
                    self.schema,
                    v0,
                    attribute.value_type,
                    tvr,
                );
            }
            let tv = match tvr {
                Ok(tv) => tv,
                Err(err) => {
                    return Err(err);
                },
            };

            // Then the entity.
            let entity: i64 = match e {
                OpEntity::Entid(x) => {
                    if x <= 0 {
                        return Err(CoreError::UnrecognizedEntid(x));
                    }
                    x
                },
                OpEntity::Ident(kw) => {
                    let x = match self.schema.require_entid(&kw) {
                        Ok(x) => x,
                        Err(err) => {
                            return Err(err);
                        },
                    };
                    if x <= 0 {
                        return Err(CoreError::UnrecognizedEntid(x));
                    }
                    x
                },
                OpEntity::LookupRef(rkw, rraw) => {
                    // The ref's own attribute must be unique, its value
                    // must coerce, and some entity must hold it.
                    let re = match self.schema.require_entid(&rkw) {
                        Ok(x) => x,
                        Err(err) => {
                            return Err(err);
                        },
                    };
                    if re <= 0 {
                        return Err(CoreError::UnrecognizedEntid(re));
                    }
                    let ratt = match self.schema.require_attribute_for_entid(re) {
                        Ok(at) => at,
                        Err(err) => {
                            return Err(err);
                        },
                    };
                    if ratt.unique.is_none() {
                        return Err(
                            CoreError::InvalidArgument(
                                crate::render::render_keyword(&rkw),
                                "a unique attribute".to_owned(),
                                1,
                            ),
                        );
                    }
                    let ghost rraw0 = rraw;
                    let rtvr = self.schema.to_typed_value(rraw, ratt.value_type);
                    proof {
                        crate::schema::lemma_coercion_functional(
                            self.schema,
                            rraw0,
                            ratt.value_type,
                            rtvr,
                        );
                    }
                    let rtv = match rtvr {
                        Ok(tv) => tv,
                        Err(err) => {
                            return Err(err);
                        },
                    };
                    match find_entity_by_av(&self.datoms, re, &rtv) {
                        Some(found) => found,
                        None => {
                            return Err(
                                CoreError::UnrecognizedIdent(
                                    crate::render::render_keyword(&rkw),
                                ),
                            );
                        },
                    }
                },
                OpEntity::Tempid(t) => {
                    match tempid_lookup_exec(&tempids, &t) {
                        Some(known) => {
                            proof {
                                lemma_tempid_lookup_witness(tempids@, t@, known);
                            }
                            // An identity assertion naming a different
                            // entity contradicts the earlier resolution.
                            if matches!(attribute.unique, Some(Unique::Identity)) {
                                match find_entity_by_av(&self.datoms, attr_entid, &tv) {
                                    Some(found) => {
                                        if found != known {
                                            return Err(CoreError::ConflictingUpsert);
                                        }
                                    },
                                    None => {},
                                }
                            }
                            known
                        },
                        None => {
                            proof {
                                lemma_tempid_lookup_none_distinct(tempids@, t@);
                            }
                            let chosen: i64 = if matches!(
                                attribute.unique,
                                Some(Unique::Identity),
                            ) {
                                match find_entity_by_av(&self.datoms, attr_entid, &tv) {
                                    Some(found) => found,
                                    None => {
                                        let fresh = next_entid;
                                        next_entid = next_entid + 1;
                                        fresh
                                    },
                                }
                            } else {
                                let fresh = next_entid;
                                next_entid = next_entid + 1;
                                fresh
                            };
                            tempids.push((t, chosen));
                            chosen
                        },
                    }
                },
            };
            resolved.push(
                ResolvedOp { op, e: entity, a: attr_entid, multival: attribute.multival, v: tv },
            );
            proof {
                assert(resolved_view(resolved@) =~= resolved_prev.push(
                    (op, entity, attr_entid, attribute.multival, resolved@.last().v@),
                ));
                // Every recorded tempid occurs among the operations seen
                // so far.
                assert(ops.take(i as int + 1)[i as int] == ops[i as int]);
                assert(forall|p: int|
                    0 <= p < ops.take(i as int).len() ==> #[trigger] ops.take(i as int)[p]
                        == ops.take(i as int + 1)[p]);
                assert forall|p: int| 0 <= p < tempids@.len() implies has_tempid(
                    ops.take(i as int + 1),
                    (#[trigger] tempids@[p]).0@,
                ) by {
                    if p < tempids_prev.len() {
                        assert(tempids@[p] == tempids_prev[p]);
                        let w = choose|w: int|
                            0 <= w < ops.take(i as int).len() && ((#[trigger] ops.take(
                                i as int,
                            )[w]).e matches OpEntity::Tempid(t) && t@ == tempids_prev[p].0@);
                        assert(ops.take(i as int + 1)[w] == ops.take(i as int)[w]);
                    } else {
                        assert(ops.take(i as int + 1)[i as int] == ops[i as int]);
                    }
                }
                // Every tempid operation seen so far resolves.
                assert forall|p: int| 0 <= p < i + 1 implies match (#[trigger] ops[p]).e {
                    OpEntity::Tempid(t) => tempid_lookup(tempids@, t@) is Some,
                    _ => true,
                } by {
                    if tempids@.len() > tempids_prev.len() {
                        let x = tempids@[tempids_prev.len() as int];
                        assert(tempids@ == tempids_prev.push(x));
                        if p < i {
                            match ops[p].e {
                                OpEntity::Tempid(t) => {
                                    lemma_tempid_lookup_push(tempids_prev, x, t@);
                                },
                                _ => {},
                            }
                        } else {
                            match ops[p].e {
                                OpEntity::Tempid(t) => {
                                    lemma_tempid_lookup_push(tempids_prev, x, t@);
                                },
                                _ => {},
                            }
                        }
                    }
                }
            }
            i += 1;
        }
        proof {
            assert(ops.take(i as int) =~= ops);
        }

        // Apply against a working copy: cardinality-one replaces, and a
        // retraction removes the exact datom.
        let ghost dv0 = datoms_view(datoms0);
        let ghost rops_all = resolved_view(resolved@);
        let mut datoms = copy_datoms(&self.datoms);
        let mut k: usize = 0;
        proof {
            assert(rops_all.skip(0) =~= rops_all);
        }
        while k < resolved.len()
            invariant
                k <= resolved@.len(),
                rops_all == resolved_view(resolved@),
                forall|p: int|
                    0 <= p < resolved@.len() ==> (#[trigger] resolved@[p]).e > 0
                        && resolved@[p].a > 0,
                forall|p: int|
                    0 <= p < datoms@.len() ==> (#[trigger] datoms@[p]).e > 0 && datoms@[p].a > 0
                        && datoms@[p].tx > 0,
                spec_apply(dv0, rops_all, tx_id) == spec_apply(
                    datoms_view(datoms@),
                    rops_all.skip(k as int),
                    tx_id,
                ),
            decreases resolved@.len() - k,
        {
            proof {
                assert(rops_all.skip(k as int)[0] == rops_all[k as int]);
                assert(rops_all.skip(k as int).drop_first() =~= rops_all.skip(k as int + 1));
            }
            let ro = &resolved[k];
            match ro.op {
                Op::Add => {
                    if ro.multival {
                        remove_datoms_eav(&mut datoms, ro.e, ro.a, Some(&ro.v));
                    } else {
                        remove_datoms_eav(&mut datoms, ro.e, ro.a, None);
                    }
                    let ghost before_push = datoms_view(datoms@);
                    datoms.push(Datom { e: ro.e, a: ro.a, v: ro.v.duplicate(), tx: tx_id });
                    proof {
                        assert(datoms_view(datoms@) =~= before_push.push(
                            (ro.e, ro.a, ro.v@, tx_id),
                        ));
                    }
                },
                Op::Retract => {
                    remove_datoms_eav(&mut datoms, ro.e, ro.a, Some(&ro.v));
                },
            }
            k += 1;
        }
        proof {
            assert(rops_all.skip(k as int) =~= Seq::<
                (Op, i64, i64, bool, crate::values::Value),
            >::empty());
        }

        // The transaction's own entity records its instant.
        let ghost before_tx_datom = datoms_view(datoms@);
        datoms.push(
            Datom {
                e: tx_id,
                a: entids::DB_TX_INSTANT,
                v: TypedValue::Instant(tx_instant),
                tx: tx_id,
            },
        );
        proof {
            assert(datoms_view(datoms@) =~= before_tx_datom.push(
                (tx_id, entids::DB_TX_INSTANT, crate::values::Value::Instant(tx_instant as int), tx_id),
            ));
        }

        // Commit.
        self.datoms = datoms;
        self.next_entid = next_entid;
        self.next_tx = tx_id + 1;
        self.last_tx_instant = tx_instant;
        Ok(TxReport { tx_id, tx_instant, tempids })
    }
}

} // verus!
