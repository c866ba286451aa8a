//! The query algebrizer: walking a parsed query left to right, resolving
//! idents through the registry, assigning each variable a column,
//! narrowing per-variable type sets by intersection, detecting the
//! provably-empty plan, and checking aggregates and orderings.
//!
//! The resolved plan is name-free: clauses speak of columns, and the
//! variable names survive only in the column-binding list.

use vstd::prelude::*;
use vstd::string::StringExecFns;
use crate::attributes::Attribute;
use crate::errors::CoreError;
use crate::query::{
    AggregateOp, Element, FindSpec, FnArg, FulltextBinding, OrderBy, ParsedQuery, Pattern,
    PatternNonValuePlace, PatternValuePlace, PredicateOp, WhereClause,
};
use crate::render::{keyword_rep, render_keyword};
use crate::schema::{lookup_attribute, lookup_entid, Schema};
use crate::values::{
    spec_value_type_of, Keyword, TypedValue, ValueType, ValueTypeSet,
};

verus! {

/// Why the algebrizer proved the plan empty.
#[derive(Clone, Copy, Debug, PartialEq, Eq, Structural)]
pub enum EmptyBecause {
    TypeMismatch,
}

/// An entity, attribute or tx position of a resolved clause.
#[derive(Clone, Copy, Debug, PartialEq, Eq, Structural)]
pub enum ResolvedPlace {
    Wildcard,
    Column(usize),
    Entid(i64),
}

/// A value position of a resolved clause.
#[derive(Clone, Debug, PartialEq, Eq)]
pub enum ResolvedValuePlace {
    Wildcard,
    Column(usize),
    Value(TypedValue),
}

/// A clause of the resolved conjunction.
#[derive(Clone, Debug, PartialEq, Eq)]
pub enum ResolvedClause {
    /// `[E A V T]` with places resolved.
    Pattern {
        entity: ResolvedPlace,
        attribute: ResolvedPlace,
        value: ResolvedValuePlace,
        tx: ResolvedPlace,
    },
    /// A binary predicate over resolved operands.
    Pred { op: PredicateOp, left: ResolvedValuePlace, right: ResolvedValuePlace },
    /// A constant binding.
    Ground { value: TypedValue, column: usize },
    /// A fulltext search over a fulltext attribute.
    Fulltext {
        attr: i64,
        search: ResolvedValuePlace,
        entity: Option<usize>,
        value: Option<usize>,
        tx: Option<usize>,
        score: Option<usize>,
    },
    /// The transactions in a range.
    TxIds { after: ResolvedValuePlace, before: ResolvedValuePlace, column: usize },
    /// The datoms of a transaction, bound to up to five columns.
    TxData {
        tx: ResolvedValuePlace,
        entity: Option<usize>,
        attribute: Option<usize>,
        value: Option<usize>,
        tx_col: Option<usize>,
        added: Option<usize>,
    },
}

/// The typed conjunctive plan: column bindings, per-column type sets,
/// the resolved clauses, and the provable-emptiness tag.
#[derive(Clone, Debug)]
pub struct ConjoiningClauses {
    /// The bound variables; the column of a variable is its index here.
    pub vars: Vec<String>,
    /// The narrowed type set of each column, parallel to `vars`.
    pub known_types: Vec<ValueTypeSet>,
    /// The resolved clauses, in order.
    pub clauses: Vec<ResolvedClause>,
    /// Set when the algebrizer proved the result must be empty.
    pub empty_because: Option<EmptyBecause>,
}

/// An algebrized query: the plan plus the find shape, grouping
/// variables, inputs and ordering it was declared with.
#[derive(Clone, Debug)]
pub struct AlgebrizedQuery {
    pub find: FindSpec,
    pub in_vars: Vec<String>,
    pub with_vars: Vec<String>,
    pub order: Vec<OrderBy>,
    pub cc: ConjoiningClauses,
}

/// The model of the evolving conjunction while clauses are walked.
pub struct CcModel {
    pub vars: Seq<String>,
    pub types: Seq<ValueTypeSet>,
    pub clauses: Seq<ResolvedClause>,
}

/// The failures algebrization can end in, over views.
pub enum AlgFailure {
    UnrecognizedIdent(Seq<char>),
    UnrecognizedEntid(i64),
    InvalidArgument(Seq<char>, Seq<char>, int),
    CannotApplyAggregateOperationToTypes(AggregateOp, ValueTypeSet),
    AmbiguousAggregates(int, int),
}

/// The first column bound to a variable with this name.
pub open spec fn find_var(vars: Seq<String>, v: String) -> Option<int>
    decreases vars.len(),
{
    if vars.len() == 0 {
        None
    } else if vars[0]@ == v@ {
        Some(0int)
    } else {
        match find_var(vars.drop_first(), v) {
            Some(i) => Some(i + 1),
            None => None,
        }
    }
}

/// Bind a variable: its column if bound, else a fresh column with every
/// type admitted.
pub open spec fn spec_bind_var(m: CcModel, v: String) -> (CcModel, int) {
    match find_var(m.vars, v) {
        Some(i) => (m, i),
        None => (
            CcModel {
                vars: m.vars.push(v),
                types: m.types.push(ValueTypeSet::spec_any()),
                clauses: m.clauses,
            },
            m.vars.len() as int,
        ),
    }
}

/// Intersect a column's type set with `s`; the boolean says whether the
/// column's set became empty.
pub open spec fn spec_narrow(m: CcModel, col: int, s: ValueTypeSet) -> (CcModel, bool) {
    let t2 = m.types[col].spec_intersect(s);
    (
        CcModel { vars: m.vars, types: m.types.update(col, t2), clauses: m.clauses },
        t2.spec_is_empty(),
    )
}

/// The types a comparison predicate admits: numeric, instant, or ref.
pub open spec fn spec_comparable_set() -> ValueTypeSet {
    ValueTypeSet {
        has_ref: true,
        has_boolean: false,
        has_instant: true,
        has_long: true,
        has_double: true,
        has_string: false,
        has_keyword: false,
        has_uuid: false,
        has_bytes: false,
    }
}

/// The outcome of resolving one place.
pub enum PlaceOut {
    PlaceGo(CcModel, ResolvedPlace),
    PlaceEmpty(CcModel),
    PlaceFail(AlgFailure),
}

/// The outcome of one clause.
pub enum ClauseOut {
    CGo(CcModel),
    CEmpty(CcModel),
    CFail(AlgFailure),
}

/// An entity or tx position: a variable there is an entity, so its types
/// narrow to `Ref`.
pub open spec fn step_entity_place(
    idents: Seq<(Keyword, i64)>,
    m: CcModel,
    p: PatternNonValuePlace,
) -> PlaceOut {
    match p {
        PatternNonValuePlace::Placeholder => PlaceOut::PlaceGo(m, ResolvedPlace::Wildcard),
        PatternNonValuePlace::Entid(e) => PlaceOut::PlaceGo(m, ResolvedPlace::Entid(e)),
        PatternNonValuePlace::Ident(kw) => match lookup_entid(idents, kw@) {
            Some(e) => PlaceOut::PlaceGo(m, ResolvedPlace::Entid(e)),
            None => PlaceOut::PlaceFail(AlgFailure::UnrecognizedIdent(keyword_rep(kw@))),
        },
        PatternNonValuePlace::Variable(v) => {
            let (m1, c) = spec_bind_var(m, v);
            let (m2, empty) = spec_narrow(m1, c, ValueTypeSet::spec_one(ValueType::Ref));
            if empty {
                PlaceOut::PlaceEmpty(m2)
            } else {
                PlaceOut::PlaceGo(m2, ResolvedPlace::Column(c as usize))
            }
        },
    }
}

/// The attribute position: a keyword or entid must name an installed
/// attribute, whose metadata then types the value position.
pub open spec fn step_attribute_place(
    idents: Seq<(Keyword, i64)>,
    attrs: Seq<(i64, Attribute)>,
    m: CcModel,
    p: PatternNonValuePlace,
) -> (PlaceOut, Option<Attribute>) {
    match p {
        PatternNonValuePlace::Placeholder => (
            PlaceOut::PlaceGo(m, ResolvedPlace::Wildcard),
            None,
        ),
        PatternNonValuePlace::Entid(e) => match lookup_attribute(attrs, e) {
            Some(a) => (PlaceOut::PlaceGo(m, ResolvedPlace::Entid(e)), Some(a)),
            None => (PlaceOut::PlaceFail(AlgFailure::UnrecognizedEntid(e)), None),
        },
        PatternNonValuePlace::Ident(kw) => match lookup_entid(idents, kw@) {
            None => (PlaceOut::PlaceFail(AlgFailure::UnrecognizedIdent(keyword_rep(kw@))), None),
            Some(e) => match lookup_attribute(attrs, e) {
                Some(a) => (PlaceOut::PlaceGo(m, ResolvedPlace::Entid(e)), Some(a)),
                None => (PlaceOut::PlaceFail(AlgFailure::UnrecognizedEntid(e)), None),
            },
        },
        PatternNonValuePlace::Variable(v) => {
            let (m1, c) = spec_bind_var(m, v);
            let (m2, empty) = spec_narrow(m1, c, ValueTypeSet::spec_one(ValueType::Ref));
            if empty {
                (PlaceOut::PlaceEmpty(m2), None)
            } else {
                (PlaceOut::PlaceGo(m2, ResolvedPlace::Column(c as usize)), None)
            }
        },
    }
}

/// The outcome of resolving a value place.
pub enum ValueOut {
    VGo(CcModel, ResolvedValuePlace),
    VEmpty(CcModel),
    VFail(AlgFailure),
}

/// The value position, typed by the attribute when it is known: a
/// variable narrows to the attribute's value type; an integer is an
/// entid under a `Ref` attribute and a `Long` otherwise; a keyword is a
/// value under a `Keyword` attribute and resolves to an entid under a
/// `Ref` one; any other constant must match the attribute's type.
pub open spec fn step_value_place(
    idents: Seq<(Keyword, i64)>,
    m: CcModel,
    p: PatternValuePlace,
    att: Option<Attribute>,
) -> ValueOut {
    match p {
        PatternValuePlace::Placeholder => ValueOut::VGo(m, ResolvedValuePlace::Wildcard),
        PatternValuePlace::Variable(v) => {
            let (m1, c) = spec_bind_var(m, v);
            match att {
                Some(a) => {
                    let (m2, empty) = spec_narrow(m1, c, ValueTypeSet::spec_one(a.value_type));
                    if empty {
                        ValueOut::VEmpty(m2)
                    } else {
                        ValueOut::VGo(m2, ResolvedValuePlace::Column(c as usize))
                    }
                },
                None => ValueOut::VGo(m1, ResolvedValuePlace::Column(c as usize)),
            }
        },
        PatternValuePlace::EntidOrInteger(n) => match att {
            Some(a) => if a.value_type == ValueType::Ref {
                ValueOut::VGo(m, ResolvedValuePlace::Value(TypedValue::Ref(n)))
            } else if a.value_type == ValueType::Long {
                ValueOut::VGo(m, ResolvedValuePlace::Value(TypedValue::Long(n)))
            } else {
                ValueOut::VEmpty(m)
            },
            None => ValueOut::VGo(m, ResolvedValuePlace::Value(TypedValue::Long(n))),
        },
        PatternValuePlace::IdentOrKeyword(kw) => match att {
            Some(a) => if a.value_type == ValueType::Keyword {
                ValueOut::VGo(m, ResolvedValuePlace::Value(TypedValue::Keyword(kw)))
            } else if a.value_type == ValueType::Ref {
                match lookup_entid(idents, kw@) {
                    Some(e) => ValueOut::VGo(m, ResolvedValuePlace::Value(TypedValue::Ref(e))),
                    None => ValueOut::VFail(AlgFailure::UnrecognizedIdent(keyword_rep(kw@))),
                }
            } else {
                ValueOut::VEmpty(m)
            },
            None => ValueOut::VGo(m, ResolvedValuePlace::Value(TypedValue::Keyword(kw))),
        },
        PatternValuePlace::Constant(tv) => match att {
            Some(a) => if spec_value_type_of(tv@) == a.value_type {
                ValueOut::VGo(m, ResolvedValuePlace::Value(tv))
            } else {
                ValueOut::VEmpty(m)
            },
            None => ValueOut::VGo(m, ResolvedValuePlace::Value(tv)),
        },
    }
}

/// One `[E A V T]` clause: places left to right, then the resolved
/// pattern joins the conjunction.
pub open spec fn step_pattern(
    idents: Seq<(Keyword, i64)>,
    attrs: Seq<(i64, Attribute)>,
    m: CcModel,
    p: Pattern,
) -> ClauseOut {
    match step_entity_place(idents, m, p.entity) {
        PlaceOut::PlaceFail(f) => ClauseOut::CFail(f),
        PlaceOut::PlaceEmpty(m1) => ClauseOut::CEmpty(m1),
        PlaceOut::PlaceGo(m1, re) => match step_attribute_place(idents, attrs, m1, p.attribute) {
            (PlaceOut::PlaceFail(f), _) => ClauseOut::CFail(f),
            (PlaceOut::PlaceEmpty(m2), _) => ClauseOut::CEmpty(m2),
            (PlaceOut::PlaceGo(m2, ra), att) => match step_value_place(idents, m2, p.value, att) {
                ValueOut::VFail(f) => ClauseOut::CFail(f),
                ValueOut::VEmpty(m3) => ClauseOut::CEmpty(m3),
                ValueOut::VGo(m3, rv) => match step_entity_place(idents, m3, p.tx) {
                    PlaceOut::PlaceFail(f) => ClauseOut::CFail(f),
                    PlaceOut::PlaceEmpty(m4) => ClauseOut::CEmpty(m4),
                    PlaceOut::PlaceGo(m4, rt) => ClauseOut::CGo(
                        CcModel {
                            vars: m4.vars,
                            types: m4.types,
                            clauses: m4.clauses.push(
                                ResolvedClause::Pattern {
                                    entity: re,
                                    attribute: ra,
                                    value: rv,
                                    tx: rt,
                                },
                            ),
                        },
                    ),
                },
            },
        },
    }
}

/// A type requirement constrains an already-bound variable's types to
/// one type.
pub open spec fn step_type_req(m: CcModel, v: String, t: ValueType) -> ClauseOut {
    match find_var(m.vars, v) {
        None => ClauseOut::CFail(
            AlgFailure::InvalidArgument(v@, "bound variable"@, 0),
        ),
        Some(c) => {
            let (m1, empty) = spec_narrow(m, c, ValueTypeSet::spec_one(t));
            if empty {
                ClauseOut::CEmpty(m1)
            } else {
                ClauseOut::CGo(m1)
            }
        },
    }
}

/// A ground clause binds its variable to a constant of that constant's
/// type.
pub open spec fn step_ground(m: CcModel, tv: TypedValue, v: String) -> ClauseOut {
    let (m1, c) = spec_bind_var(m, v);
    let (m2, empty) = spec_narrow(m1, c, ValueTypeSet::spec_one(spec_value_type_of(tv@)));
    if empty {
        ClauseOut::CEmpty(m2)
    } else {
        ClauseOut::CGo(
            CcModel {
                vars: m2.vars,
                types: m2.types,
                clauses: m2.clauses.push(
                    ResolvedClause::Ground { value: tv, column: c as usize },
                ),
            },
        )
    }
}

/// Whether a predicate compares by order, narrowing its operands to the
/// comparable types.
pub open spec fn spec_pred_compares(op: PredicateOp) -> bool {
    match op {
        PredicateOp::Lt | PredicateOp::Le | PredicateOp::Gt | PredicateOp::Ge
        | PredicateOp::Unpermute => true,
        PredicateOp::Eq | PredicateOp::NotEq | PredicateOp::Differ => false,
    }
}

/// The outcome of resolving one predicate argument.
pub enum ArgOut {
    ArgGo(CcModel, ResolvedValuePlace),
    ArgEmpty(CcModel),
    ArgFail(AlgFailure),
}

/// One predicate argument: a variable must already be bound; under an
/// ordering predicate operands narrow to the comparable types, and a
/// constant must be of one.
pub open spec fn step_pred_arg(m: CcModel, arg: FnArg, pos: int, compares: bool) -> ArgOut {
    match arg {
        FnArg::Variable(v) => match find_var(m.vars, v) {
            None => ArgOut::ArgFail(AlgFailure::InvalidArgument(v@, "bound variable"@, pos)),
            Some(c) => if compares {
                let (m1, empty) = spec_narrow(m, c, spec_comparable_set());
                if empty {
                    ArgOut::ArgEmpty(m1)
                } else {
                    ArgOut::ArgGo(m1, ResolvedValuePlace::Column(c as usize))
                }
            } else {
                ArgOut::ArgGo(m, ResolvedValuePlace::Column(c as usize))
            },
        },
        FnArg::EntidOrInteger(n) => ArgOut::ArgGo(
            m,
            ResolvedValuePlace::Value(TypedValue::Long(n)),
        ),
        FnArg::Constant(tv) => if compares && !spec_comparable_set().spec_contains(
            spec_value_type_of(tv@),
        ) {
            ArgOut::ArgFail(
                AlgFailure::InvalidArgument("constant"@, "a numeric, instant or ref operand"@, pos),
            )
        } else {
            ArgOut::ArgGo(m, ResolvedValuePlace::Value(tv))
        },
    }
}

/// A predicate clause: two operands, resolved left to right, then the
/// predicate joins the conjunction.
pub open spec fn step_pred(m: CcModel, op: PredicateOp, args: Seq<FnArg>) -> ClauseOut {
    if args.len() != 2 {
        ClauseOut::CFail(AlgFailure::InvalidArgument("predicate"@, "two arguments"@, 0))
    } else {
        match step_pred_arg(m, args[0], 0, spec_pred_compares(op)) {
            ArgOut::ArgFail(f) => ClauseOut::CFail(f),
            ArgOut::ArgEmpty(m1) => ClauseOut::CEmpty(m1),
            ArgOut::ArgGo(m1, left) => match step_pred_arg(
                m1,
                args[1],
                1,
                spec_pred_compares(op),
            ) {
                ArgOut::ArgFail(f) => ClauseOut::CFail(f),
                ArgOut::ArgEmpty(m2) => ClauseOut::CEmpty(m2),
                ArgOut::ArgGo(m2, right) => ClauseOut::CGo(
                    CcModel {
                        vars: m2.vars,
                        types: m2.types,
                        clauses: m2.clauses.push(ResolvedClause::Pred { op, left, right }),
                    },
                ),
            },
        }
    }
}

/// Bind an optional variable and narrow it; `None` stays unbound.
pub open spec fn spec_bind_opt(m: CcModel, ov: Option<String>, s: ValueTypeSet) -> (
    CcModel,
    Option<usize>,
    bool,
) {
    match ov {
        None => (m, None, false),
        Some(v) => {
            let (m1, c) = spec_bind_var(m, v);
            let (m2, empty) = spec_narrow(m1, c, s);
            (m2, Some(c as usize), empty)
        },
    }
}

/// The search term of a fulltext clause: a string literal, or a variable
/// already bound whose types narrow to `String`.
pub open spec fn step_search_term(m: CcModel, search: FnArg) -> ValueOut {
    match search {
        FnArg::Constant(tv) => if spec_value_type_of(tv@) == ValueType::String {
            ValueOut::VGo(m, ResolvedValuePlace::Value(tv))
        } else {
            ValueOut::VFail(AlgFailure::InvalidArgument("search term"@, "a string"@, 2))
        },
        FnArg::Variable(v) => match find_var(m.vars, v) {
            None => ValueOut::VFail(
                AlgFailure::InvalidArgument(v@, "bound string variable"@, 2),
            ),
            Some(c) => {
                let (m1, empty) = spec_narrow(m, c, ValueTypeSet::spec_one(ValueType::String));
                if empty {
                    ValueOut::VEmpty(m1)
                } else {
                    ValueOut::VGo(m1, ResolvedValuePlace::Column(c as usize))
                }
            },
        },
        FnArg::EntidOrInteger(_) => ValueOut::VFail(
            AlgFailure::InvalidArgument("search term"@, "a string"@, 2),
        ),
    }
}

/// A fulltext clause: the attribute must be installed with
/// `fulltext = true`; the bindings take entity, value, tx and score
/// columns.
pub open spec fn step_fulltext(
    idents: Seq<(Keyword, i64)>,
    attrs: Seq<(i64, Attribute)>,
    m: CcModel,
    kw: Keyword,
    search: FnArg,
    b: FulltextBinding,
) -> ClauseOut {
    match lookup_entid(idents, kw@) {
        None => ClauseOut::CFail(AlgFailure::UnrecognizedIdent(keyword_rep(kw@))),
        Some(e) => match lookup_attribute(attrs, e) {
            None => ClauseOut::CFail(AlgFailure::UnrecognizedEntid(e)),
            Some(a) => if !a.fulltext {
                ClauseOut::CFail(
                    AlgFailure::InvalidArgument(keyword_rep(kw@), "a fulltext attribute"@, 1),
                )
            } else {
                match step_search_term(m, search) {
                    ValueOut::VFail(f) => ClauseOut::CFail(f),
                    ValueOut::VEmpty(m1) => ClauseOut::CEmpty(m1),
                    ValueOut::VGo(m1, rs) => {
                        let (m2, ce, emp2) = spec_bind_opt(
                            m1,
                            b.entity,
                            ValueTypeSet::spec_one(ValueType::Ref),
                        );
                        let (m3, cv, emp3) = spec_bind_opt(
                            m2,
                            b.value,
                            ValueTypeSet::spec_one(ValueType::String),
                        );
                        let (m4, ct, emp4) = spec_bind_opt(
                            m3,
                            b.tx,
                            ValueTypeSet::spec_one(ValueType::Ref),
                        );
                        let (m5, cs, emp5) = spec_bind_opt(
                            m4,
                            b.score,
                            ValueTypeSet::spec_one(ValueType::Double),
                        );
                        if emp2 || emp3 || emp4 || emp5 {
                            ClauseOut::CEmpty(m5)
                        } else {
                            ClauseOut::CGo(
                                CcModel {
                                    vars: m5.vars,
                                    types: m5.types,
                                    clauses: m5.clauses.push(
                                        ResolvedClause::Fulltext {
                                            attr: e,
                                            search: rs,
                                            entity: ce,
                                            value: cv,
                                            tx: ct,
                                            score: cs,
                                        },
                                    ),
                                },
                            )
                        }
                    },
                }
            },
        },
    }
}

/// A tx-ids clause: the bounds are comparable operands; the binding
/// column takes transaction entids.
pub open spec fn step_tx_ids(m: CcModel, after: FnArg, before: FnArg, v: String) -> ClauseOut {
    match step_pred_arg(m, after, 1, true) {
        ArgOut::ArgFail(f) => ClauseOut::CFail(f),
        ArgOut::ArgEmpty(m1) => ClauseOut::CEmpty(m1),
        ArgOut::ArgGo(m1, ra) => match step_pred_arg(m1, before, 2, true) {
            ArgOut::ArgFail(f) => ClauseOut::CFail(f),
            ArgOut::ArgEmpty(m2) => ClauseOut::CEmpty(m2),
            ArgOut::ArgGo(m2, rb) => {
                let (m3, c) = spec_bind_var(m2, v);
                let (m4, empty) = spec_narrow(m3, c, ValueTypeSet::spec_one(ValueType::Ref));
                if empty {
                    ClauseOut::CEmpty(m4)
                } else {
                    ClauseOut::CGo(
                        CcModel {
                            vars: m4.vars,
                            types: m4.types,
                            clauses: m4.clauses.push(
                                ResolvedClause::TxIds {
                                    after: ra,
                                    before: rb,
                                    column: c as usize,
                                },
                            ),
                        },
                    )
                }
            },
        },
    }
}

/// A tx-data clause: five binding places for entity, attribute, value,
/// tx and the added flag.
pub open spec fn step_tx_data(m: CcModel, tx: FnArg, binds: Seq<Option<String>>) -> ClauseOut {
    if binds.len() != 5 {
        ClauseOut::CFail(AlgFailure::InvalidArgument("tx-data"@, "five binding places"@, 0))
    } else {
        match step_pred_arg(m, tx, 1, true) {
            ArgOut::ArgFail(f) => ClauseOut::CFail(f),
            ArgOut::ArgEmpty(m1) => ClauseOut::CEmpty(m1),
            ArgOut::ArgGo(m1, rtx) => {
                let (m2, ce, emp2) = spec_bind_opt(
                    m1,
                    binds[0],
                    ValueTypeSet::spec_one(ValueType::Ref),
                );
                let (m3, ca, emp3) = spec_bind_opt(
                    m2,
                    binds[1],
                    ValueTypeSet::spec_one(ValueType::Ref),
                );
                let (m4, cv, emp4) = spec_bind_opt(m3, binds[2], ValueTypeSet::spec_any());
                let (m5, ct, emp5) = spec_bind_opt(
                    m4,
                    binds[3],
                    ValueTypeSet::spec_one(ValueType::Ref),
                );
                let (m6, cd, emp6) = spec_bind_opt(
                    m5,
                    binds[4],
                    ValueTypeSet::spec_one(ValueType::Boolean),
                );
                if emp2 || emp3 || emp4 || emp5 || emp6 {
                    ClauseOut::CEmpty(m6)
                } else {
                    ClauseOut::CGo(
                        CcModel {
                            vars: m6.vars,
                            types: m6.types,
                            clauses: m6.clauses.push(
                                ResolvedClause::TxData {
                                    tx: rtx,
                                    entity: ce,
                                    attribute: ca,
                                    value: cv,
                                    tx_col: ct,
                                    added: cd,
                                },
                            ),
                        },
                    )
                }
            },
        }
    }
}

/// One clause of `:where`.
pub open spec fn step_clause(
    idents: Seq<(Keyword, i64)>,
    attrs: Seq<(i64, Attribute)>,
    m: CcModel,
    c: WhereClause,
) -> ClauseOut {
    match c {
        WhereClause::Pattern(p) => step_pattern(idents, attrs, m, p),
        WhereClause::TypeReq(v, t) => step_type_req(m, v, t),
        WhereClause::Ground(tv, v) => step_ground(m, tv, v),
        WhereClause::Pred(op, args) => step_pred(m, op, args@),
        WhereClause::Fulltext(kw, search, b) => step_fulltext(idents, attrs, m, kw, search, b),
        WhereClause::TxIds(after, before, v) => step_tx_ids(m, after, before, v),
        WhereClause::TxData(tx, binds) => step_tx_data(m, tx, binds@),
    }
}

/// The walk over `:where`, left to right, short-circuiting on a proved
/// collapse or a failure.
pub open spec fn fold_clauses(
    idents: Seq<(Keyword, i64)>,
    attrs: Seq<(i64, Attribute)>,
    m: CcModel,
    cs: Seq<WhereClause>,
) -> ClauseOut
    decreases cs.len(),
{
    if cs.len() == 0 {
        ClauseOut::CGo(m)
    } else {
        match step_clause(idents, attrs, m, cs[0]) {
            ClauseOut::CGo(m2) => fold_clauses(idents, attrs, m2, cs.drop_first()),
            out => out,
        }
    }
}

/// The types `min` and `max` accept.
pub open spec fn spec_minmax_set() -> ValueTypeSet {
    ValueTypeSet {
        has_ref: true,
        has_boolean: false,
        has_instant: true,
        has_long: true,
        has_double: true,
        has_string: true,
        has_keyword: true,
        has_uuid: true,
        has_bytes: false,
    }
}

/// Check one `:find` element: its variable must be bound, and an
/// aggregate must accept the variable's type set.
pub open spec fn check_element(m: CcModel, el: Element, pos: int) -> Option<AlgFailure> {
    match el {
        Element::Variable(v) => match find_var(m.vars, v) {
            Some(_) => None,
            None => Some(AlgFailure::InvalidArgument(v@, "bound variable"@, pos)),
        },
        Element::Aggregate(op, v) => match find_var(m.vars, v) {
            None => Some(AlgFailure::InvalidArgument(v@, "bound variable"@, pos)),
            Some(c) => {
                let ts = m.types[c];
                match op {
                    AggregateOp::Sum | AggregateOp::Avg => if !ts.spec_is_subset(
                        ValueTypeSet::spec_numeric(),
                    ) {
                        Some(AlgFailure::CannotApplyAggregateOperationToTypes(op, ts))
                    } else {
                        None
                    },
                    AggregateOp::Min | AggregateOp::Max => if !ts.spec_is_subset(
                        spec_minmax_set(),
                    ) {
                        Some(AlgFailure::CannotApplyAggregateOperationToTypes(op, ts))
                    } else {
                        None
                    },
                    _ => None,
                }
            },
        },
    }
}

/// Check the `:find` elements left to right.
pub open spec fn check_elements(m: CcModel, els: Seq<Element>, pos: int) -> Option<AlgFailure>
    decreases els.len(),
{
    if els.len() == 0 {
        None
    } else {
        match check_element(m, els[0], pos) {
            Some(f) => Some(f),
            None => check_elements(m, els.drop_first(), pos + 1),
        }
    }
}

/// How many `min`/`max` aggregates the projection holds.
pub open spec fn count_min_max(els: Seq<Element>) -> int
    decreases els.len(),
{
    if els.len() == 0 {
        0
    } else {
        (match els[0] {
            Element::Aggregate(AggregateOp::Min, _) => 1int,
            Element::Aggregate(AggregateOp::Max, _) => 1int,
            _ => 0int,
        }) + count_min_max(els.drop_first())
    }
}

/// How many `the` aggregates the projection holds.
pub open spec fn count_the(els: Seq<Element>) -> int
    decreases els.len(),
{
    if els.len() == 0 {
        0
    } else {
        (match els[0] {
            Element::Aggregate(AggregateOp::The, _) => 1int,
            _ => 0int,
        }) + count_the(els.drop_first())
    }
}

/// The elements of a find specification.
pub open spec fn find_elements(f: FindSpec) -> Seq<Element> {
    match f {
        FindSpec::FindRel(els) => els@,
        FindSpec::FindTuple(els) => els@,
        FindSpec::FindColl(el) => seq![el],
        FindSpec::FindScalar(el) => seq![el],
    }
}

/// Check the `:with` variables, left to right: each must be bound.
pub open spec fn check_with(m: CcModel, ws: Seq<String>, pos: int) -> Option<AlgFailure>
    decreases ws.len(),
{
    if ws.len() == 0 {
        None
    } else {
        match find_var(m.vars, ws[0]) {
            Some(_) => check_with(m, ws.drop_first(), pos + 1),
            None => Some(AlgFailure::InvalidArgument(ws[0]@, "bound variable"@, pos)),
        }
    }
}

/// Whether a find element projects this variable un-aggregated.
pub open spec fn elements_project_var(els: Seq<Element>, v: String) -> bool
    decreases els.len(),
{
    if els.len() == 0 {
        false
    } else {
        (match els[0] {
            Element::Variable(w) => w@ == v@,
            _ => false,
        }) || elements_project_var(els.drop_first(), v)
    }
}

/// Whether a variable list holds this name.
pub open spec fn vars_contain(ws: Seq<String>, v: String) -> bool
    decreases ws.len(),
{
    if ws.len() == 0 {
        false
    } else {
        ws[0]@ == v@ || vars_contain(ws.drop_first(), v)
    }
}

/// Check the orderings: a variable ordered by must be projected by
/// `:find` or declared in `:with`.
pub open spec fn check_order(
    els: Seq<Element>,
    ws: Seq<String>,
    os: Seq<OrderBy>,
    pos: int,
) -> Option<AlgFailure>
    decreases os.len(),
{
    if os.len() == 0 {
        None
    } else if elements_project_var(els, os[0].1) || vars_contain(ws, os[0].1) {
        check_order(els, ws, os.drop_first(), pos + 1)
    } else {
        Some(AlgFailure::InvalidArgument(os[0].1@, "a projected or :with variable"@, pos))
    }
}

/// The outcome of algebrizing a whole query: a plan (possibly proved
/// empty) or a failure.
pub enum QueryOut {
    QGo(CcModel, bool),
    QFail(AlgFailure),
}

/// The whole walk: bind the inputs, type the clauses (a collapse
/// short-circuits to the empty plan), then check the projection, the
/// aggregate ambiguity rule, the grouping variables and the orderings.
pub open spec fn algebrize_model(
    idents: Seq<(Keyword, i64)>,
    attrs: Seq<(i64, Attribute)>,
    find: FindSpec,
    with_vars: Seq<String>,
    wheres: Seq<WhereClause>,
    order: Seq<OrderBy>,
) -> QueryOut {
    let m0 = CcModel { vars: Seq::empty(), types: Seq::empty(), clauses: Seq::empty() };
    match fold_clauses(idents, attrs, m0, wheres) {
        ClauseOut::CFail(f) => QueryOut::QFail(f),
        ClauseOut::CEmpty(m) => QueryOut::QGo(m, true),
        ClauseOut::CGo(m) => {
            let els = find_elements(find);
            match check_elements(m, els, 0) {
                Some(f) => QueryOut::QFail(f),
                None => {
                    let mm = count_min_max(els);
                    let th = count_the(els);
                    if th > 0 && !(th == 1 && mm <= 1) {
                        QueryOut::QFail(AlgFailure::AmbiguousAggregates(mm, th))
                    } else {
                        match check_with(m, with_vars, 0) {
                            Some(f) => QueryOut::QFail(f),
                            None => match check_order(els, with_vars, order, 0) {
                                Some(f) => QueryOut::QFail(f),
                                None => QueryOut::QGo(m, false),
                            },
                        }
                    }
                },
            }
        },
    }
}

/// How an execution failure surfaces as an error value.
pub open spec fn fail_corresponds(e: CoreError, f: AlgFailure) -> bool {
    match f {
        AlgFailure::UnrecognizedIdent(k) => e matches CoreError::UnrecognizedIdent(s) && s@ == k,
        AlgFailure::UnrecognizedEntid(x) => e matches CoreError::UnrecognizedEntid(y) && y == x,
        AlgFailure::InvalidArgument(sym, exp, pos) => e matches CoreError::InvalidArgument(
            s,
            x,
            p,
        ) && s@ == sym && x@ == exp && p as int == pos,
        AlgFailure::CannotApplyAggregateOperationToTypes(op, ts) => e
            matches CoreError::CannotApplyAggregateOperationToTypes(o2, t2) && o2 == op && t2
            == ts,
        AlgFailure::AmbiguousAggregates(mm, th) => e matches CoreError::AmbiguousAggregates(
            a,
            b,
        ) && a as int == mm && b as int == th,
    }
}

/// Pack the three plan components into the model.
pub open spec fn model_of(
    vars: Seq<String>,
    types: Seq<ValueTypeSet>,
    clauses: Seq<ResolvedClause>,
) -> CcModel {
    CcModel { vars, types, clauses }
}

/// A hit at the first matching index is what `find_var` returns.
proof fn lemma_find_var_hit(s: Seq<String>, v: String, i: int)
    requires
        0 <= i < s.len(),
        s[i]@ == v@,
        forall|j: int| 0 <= j < i ==> (#[trigger] s[j])@ != v@,
    ensures
        find_var(s, v) == Some(i),
    decreases s.len(),
{
    if s[0]@ == v@ {
        assert(i == 0);
    } else {
        assert(forall|j: int|
            0 <= j < i - 1 ==> (#[trigger] s.drop_first()[j]) == s[j + 1]);
        assert(s.drop_first()[i - 1] == s[i]);
        lemma_find_var_hit(s.drop_first(), v, i - 1);
    }
}

/// With no matching entry, `find_var` misses.
proof fn lemma_find_var_none(s: Seq<String>, v: String)
    requires
        forall|j: int| 0 <= j < s.len() ==> (#[trigger] s[j])@ != v@,
    ensures
        find_var(s, v) is None,
    decreases s.len(),
{
    if s.len() > 0 {
        assert(forall|j: int|
            0 <= j < s.drop_first().len() ==> (#[trigger] s.drop_first()[j]) == s[j + 1]);
        lemma_find_var_none(s.drop_first(), v);
    }
}

/// A found column is in range and carries the name.
pub(crate) proof fn lemma_find_var_range(s: Seq<String>, v: String)
    ensures
        match find_var(s, v) {
            Some(i) => 0 <= i < s.len() && s[i]@ == v@,
            None => true,
        },
    decreases s.len(),
{
    if s.len() > 0 && s[0]@ != v@ {
        lemma_find_var_range(s.drop_first(), v);
    }
}

/// The column of a variable, if bound.
pub(crate) fn find_var_exec(vars: &Vec<String>, v: &String) -> (r: Option<usize>)
    ensures
        match find_var(vars@, *v) {
            Some(i) => r matches Some(u) && u as int == i,
            None => r is None,
        },
{
    let mut i: usize = 0;
    while i < vars.len()
        invariant
            i <= vars@.len(),
            forall|j: int| 0 <= j < i ==> (#[trigger] vars@[j])@ != v@,
        decreases vars@.len() - i,
    {
        if String::eq(&vars[i], v) {
            proof {
                lemma_find_var_hit(vars@, *v, i as int);
            }
            return Some(i);
        }
        i += 1;
    }
    proof {
        lemma_find_var_none(vars@, *v);
    }
    None
}

/// Bind a variable, returning its column.
fn bind_var_exec(vars: &mut Vec<String>, types: &mut Vec<ValueTypeSet>, v: String) -> (c: usize)
    requires
        old(vars)@.len() == old(types)@.len(),
    ensures
        final(vars)@.len() == final(types)@.len(),
        c < final(vars)@.len(),
        ({
            let (m2, col) = spec_bind_var(
                model_of(old(vars)@, old(types)@, Seq::empty()),
                v,
            );
            final(vars)@ == m2.vars && final(types)@ == m2.types && c as int == col
        }),
{
    proof {
        lemma_find_var_range(vars@, v);
    }
    match find_var_exec(vars, &v) {
        Some(c) => c,
        None => {
            let c = vars.len();
            vars.push(v);
            types.push(ValueTypeSet::any());
            c
        },
    }
}

/// Intersect a column's type set with `s`, reporting a collapse.
fn narrow_exec(types: &mut Vec<ValueTypeSet>, c: usize, s: ValueTypeSet) -> (empty: bool)
    requires
        c < old(types)@.len(),
    ensures
        final(types)@ == old(types)@.update(c as int, old(types)@[c as int].spec_intersect(s)),
        empty == old(types)@[c as int].spec_intersect(s).spec_is_empty(),
{
    let t2 = types[c].intersect(&s);
    types[c] = t2;
    t2.is_empty()
}

/// The outcome of resolving one place, collapse included.
enum PlaceResult {
    PResolved(ResolvedPlace),
    PCollapsed,
}

/// The outcome of resolving one value place, collapse included.
enum ValueResult {
    VResolved(ResolvedValuePlace),
    VCollapsed,
}

/// Resolve an entity or tx position.
fn do_entity_place(
    idents: &Vec<(Keyword, i64)>,
    vars: &mut Vec<String>,
    types: &mut Vec<ValueTypeSet>,
    p: PatternNonValuePlace,
    Ghost(cl): Ghost<Seq<ResolvedClause>>,
) -> (r: Result<PlaceResult, CoreError>)
    requires
        old(vars)@.len() == old(types)@.len(),
    ensures
        final(vars)@.len() == final(types)@.len(),
        match step_entity_place(idents@, model_of(old(vars)@, old(types)@, cl), p) {
            PlaceOut::PlaceGo(m2, rp) => r matches Ok(pr) && pr matches PlaceResult::PResolved(
                rp2,
            ) && rp2 == rp && final(vars)@ == m2.vars && final(types)@ == m2.types && m2.clauses
                == cl,
            PlaceOut::PlaceEmpty(m2) => r matches Ok(pr) && pr is PCollapsed && final(vars)@
                == m2.vars && final(types)@ == m2.types && m2.clauses == cl,
            PlaceOut::PlaceFail(f) => r matches Err(e) && fail_corresponds(e, f),
        },
{
    match p {
        PatternNonValuePlace::Placeholder => Ok(PlaceResult::PResolved(ResolvedPlace::Wildcard)),
        PatternNonValuePlace::Entid(e) => Ok(PlaceResult::PResolved(ResolvedPlace::Entid(e))),
        PatternNonValuePlace::Ident(kw) => match crate::schema::lookup_entid_exec(idents, &kw) {
            Some(e) => Ok(PlaceResult::PResolved(ResolvedPlace::Entid(e))),
            None => Err(CoreError::UnrecognizedIdent(render_keyword(&kw))),
        },
        PatternNonValuePlace::Variable(v) => {
            let c = bind_var_exec(vars, types, v);
            let empty = narrow_exec(types, c, ValueTypeSet::of_one(ValueType::Ref));
            if empty {
                Ok(PlaceResult::PCollapsed)
            } else {
                Ok(PlaceResult::PResolved(ResolvedPlace::Column(c)))
            }
        },
    }
}

/// Resolve the attribute position, handing back the attribute when it
/// is known.
fn do_attribute_place(
    idents: &Vec<(Keyword, i64)>,
    attrs: &Vec<(i64, Attribute)>,
    vars: &mut Vec<String>,
    types: &mut Vec<ValueTypeSet>,
    p: PatternNonValuePlace,
    Ghost(cl): Ghost<Seq<ResolvedClause>>,
) -> (r: Result<(PlaceResult, Option<Attribute>), CoreError>)
    requires
        old(vars)@.len() == old(types)@.len(),
    ensures
        final(vars)@.len() == final(types)@.len(),
        match step_attribute_place(idents@, attrs@, model_of(old(vars)@, old(types)@, cl), p) {
            (PlaceOut::PlaceGo(m2, rp), att) => r matches Ok((pr, a2)) && pr
                matches PlaceResult::PResolved(rp2) && rp2 == rp && a2 == att && final(vars)@
                == m2.vars && final(types)@ == m2.types && m2.clauses == cl,
            (PlaceOut::PlaceEmpty(m2), _) => r matches Ok((pr, _)) && pr is PCollapsed
                && final(vars)@ == m2.vars && final(types)@ == m2.types && m2.clauses == cl,
            (PlaceOut::PlaceFail(f), _) => r matches Err(e) && fail_corresponds(e, f),
        },
{
    match p {
        PatternNonValuePlace::Placeholder => Ok(
            (PlaceResult::PResolved(ResolvedPlace::Wildcard), None),
        ),
        PatternNonValuePlace::Entid(e) => match crate::schema::lookup_attribute_exec(attrs, e) {
            Some(a) => Ok((PlaceResult::PResolved(ResolvedPlace::Entid(e)), Some(a))),
            None => Err(CoreError::UnrecognizedEntid(e)),
        },
        PatternNonValuePlace::Ident(kw) => match crate::schema::lookup_entid_exec(idents, &kw) {
            None => Err(CoreError::UnrecognizedIdent(render_keyword(&kw))),
            Some(e) => match crate::schema::lookup_attribute_exec(attrs, e) {
                Some(a) => Ok((PlaceResult::PResolved(ResolvedPlace::Entid(e)), Some(a))),
                None => Err(CoreError::UnrecognizedEntid(e)),
            },
        },
        PatternNonValuePlace::Variable(v) => {
            let c = bind_var_exec(vars, types, v);
            let empty = narrow_exec(types, c, ValueTypeSet::of_one(ValueType::Ref));
            if empty {
                Ok((PlaceResult::PCollapsed, None))
            } else {
                Ok((PlaceResult::PResolved(ResolvedPlace::Column(c)), None))
            }
        },
    }
}

/// Resolve the value position under the attribute's typing.
fn do_value_place(
    idents: &Vec<(Keyword, i64)>,
    vars: &mut Vec<String>,
    types: &mut Vec<ValueTypeSet>,
    p: PatternValuePlace,
    att: Option<Attribute>,
    Ghost(cl): Ghost<Seq<ResolvedClause>>,
) -> (r: Result<ValueResult, CoreError>)
    requires
        old(vars)@.len() == old(types)@.len(),
    ensures
        final(vars)@.len() == final(types)@.len(),
        match step_value_place(idents@, model_of(old(vars)@, old(types)@, cl), p, att) {
            ValueOut::VGo(m2, rv) => r matches Ok(vr) && vr matches ValueResult::VResolved(rv2)
                && rv2 == rv && final(vars)@ == m2.vars && final(types)@ == m2.types && m2.clauses
                == cl,
            ValueOut::VEmpty(m2) => r matches Ok(vr) && vr is VCollapsed && final(vars)@
                == m2.vars && final(types)@ == m2.types && m2.clauses == cl,
            ValueOut::VFail(f) => r matches Err(e) && fail_corresponds(e, f),
        },
{
    match p {
        PatternValuePlace::Placeholder => Ok(
            ValueResult::VResolved(ResolvedValuePlace::Wildcard),
        ),
        PatternValuePlace::Variable(v) => {
            let c = bind_var_exec(vars, types, v);
            match att {
                Some(a) => {
                    let empty = narrow_exec(types, c, ValueTypeSet::of_one(a.value_type));
                    if empty {
                        Ok(ValueResult::VCollapsed)
                    } else {
                        Ok(ValueResult::VResolved(ResolvedValuePlace::Column(c)))
                    }
                },
                None => Ok(ValueResult::VResolved(ResolvedValuePlace::Column(c))),
            }
        },
        PatternValuePlace::EntidOrInteger(n) => match att {
            Some(a) => {
                if a.value_type == ValueType::Ref {
                    Ok(ValueResult::VResolved(ResolvedValuePlace::Value(TypedValue::Ref(n))))
                } else if a.value_type == ValueType::Long {
                    Ok(ValueResult::VResolved(ResolvedValuePlace::Value(TypedValue::Long(n))))
                } else {
                    Ok(ValueResult::VCollapsed)
                }
            },
            None => Ok(ValueResult::VResolved(ResolvedValuePlace::Value(TypedValue::Long(n)))),
        },
        PatternValuePlace::IdentOrKeyword(kw) => match att {
            Some(a) => {
                if a.value_type == ValueType::Keyword {
                    Ok(
                        ValueResult::VResolved(
                            ResolvedValuePlace::Value(TypedValue::Keyword(kw)),
                        ),
                    )
                } else if a.value_type == ValueType::Ref {
                    match crate::schema::lookup_entid_exec(idents, &kw) {
                        Some(e) => Ok(
                            ValueResult::VResolved(
                                ResolvedValuePlace::Value(TypedValue::Ref(e)),
                            ),
                        ),
                        None => Err(CoreError::UnrecognizedIdent(render_keyword(&kw))),
                    }
                } else {
                    Ok(ValueResult::VCollapsed)
                }
            },
            None => Ok(
                ValueResult::VResolved(ResolvedValuePlace::Value(TypedValue::Keyword(kw))),
            ),
        },
        PatternValuePlace::Constant(tv) => match att {
            Some(a) => {
                if tv.value_type() == a.value_type {
                    Ok(ValueResult::VResolved(ResolvedValuePlace::Value(tv)))
                } else {
                    Ok(ValueResult::VCollapsed)
                }
            },
            None => Ok(ValueResult::VResolved(ResolvedValuePlace::Value(tv))),
        },
    }
}

/// Resolve one `[E A V T]` clause; `Ok(true)` is a proved collapse.
fn do_pattern(
    idents: &Vec<(Keyword, i64)>,
    attrs: &Vec<(i64, Attribute)>,
    vars: &mut Vec<String>,
    types: &mut Vec<ValueTypeSet>,
    clauses: &mut Vec<ResolvedClause>,
    p: Pattern,
) -> (r: Result<bool, CoreError>)
    requires
        old(vars)@.len() == old(types)@.len(),
    ensures
        final(vars)@.len() == final(types)@.len(),
        match step_pattern(
            idents@,
            attrs@,
            model_of(old(vars)@, old(types)@, old(clauses)@),
            p,
        ) {
            ClauseOut::CGo(m2) => r matches Ok(b) && !b && final(vars)@ == m2.vars
                && final(types)@ == m2.types && final(clauses)@ == m2.clauses,
            ClauseOut::CEmpty(m2) => r matches Ok(b) && b && final(vars)@ == m2.vars
                && final(types)@ == m2.types && final(clauses)@ == m2.clauses,
            ClauseOut::CFail(f) => r matches Err(e) && fail_corresponds(e, f),
        },
{
    let Pattern { entity, attribute, value, tx } = p;
    let re = match do_entity_place(idents, vars, types, entity, Ghost(clauses@))? {
        PlaceResult::PResolved(rp) => rp,
        PlaceResult::PCollapsed => {
            return Ok(true);
        },
    };
    let (ra, att) = match do_attribute_place(idents, attrs, vars, types, attribute, Ghost(clauses@))? {
        (PlaceResult::PResolved(rp), att) => (rp, att),
        (PlaceResult::PCollapsed, _) => {
            return Ok(true);
        },
    };
    let rv = match do_value_place(idents, vars, types, value, att, Ghost(clauses@))? {
        ValueResult::VResolved(rv) => rv,
        ValueResult::VCollapsed => {
            return Ok(true);
        },
    };
    let rt = match do_entity_place(idents, vars, types, tx, Ghost(clauses@))? {
        PlaceResult::PResolved(rp) => rp,
        PlaceResult::PCollapsed => {
            return Ok(true);
        },
    };
    clauses.push(ResolvedClause::Pattern { entity: re, attribute: ra, value: rv, tx: rt });
    Ok(false)
}

/// Resolve one predicate argument.
fn do_pred_arg(
    vars: &mut Vec<String>,
    types: &mut Vec<ValueTypeSet>,
    arg: FnArg,
    pos: usize,
    compares: bool,
    Ghost(cl): Ghost<Seq<ResolvedClause>>,
) -> (r: Result<ValueResult, CoreError>)
    requires
        old(vars)@.len() == old(types)@.len(),
    ensures
        final(vars)@.len() == final(types)@.len(),
        match step_pred_arg(model_of(old(vars)@, old(types)@, cl), arg, pos as int, compares) {
            ArgOut::ArgGo(m2, rv) => r matches Ok(vr) && vr matches ValueResult::VResolved(rv2)
                && rv2 == rv && final(vars)@ == m2.vars && final(types)@ == m2.types && m2.clauses
                == cl,
            ArgOut::ArgEmpty(m2) => r matches Ok(vr) && vr is VCollapsed && final(vars)@
                == m2.vars && final(types)@ == m2.types && m2.clauses == cl,
            ArgOut::ArgFail(f) => r matches Err(e) && fail_corresponds(e, f),
        },
{
    match arg {
        FnArg::Variable(v) => {
            proof {
                lemma_find_var_range(vars@, v);
            }
            match find_var_exec(vars, &v) {
                None => Err(
                    CoreError::InvalidArgument(v, "bound variable".to_owned(), pos),
                ),
                Some(c) => {
                    if compares {
                        let empty = narrow_exec(types, c, comparable_set());
                        if empty {
                            Ok(ValueResult::VCollapsed)
                        } else {
                            Ok(ValueResult::VResolved(ResolvedValuePlace::Column(c)))
                        }
                    } else {
                        Ok(ValueResult::VResolved(ResolvedValuePlace::Column(c)))
                    }
                },
            }
        },
        FnArg::EntidOrInteger(n) => Ok(
            ValueResult::VResolved(ResolvedValuePlace::Value(TypedValue::Long(n))),
        ),
        FnArg::Constant(tv) => {
            if compares && !comparable_set().contains(tv.value_type()) {
                Err(
                    CoreError::InvalidArgument(
                        "constant".to_owned(),
                        "a numeric, instant or ref operand".to_owned(),
                        pos,
                    ),
                )
            } else {
                Ok(ValueResult::VResolved(ResolvedValuePlace::Value(tv)))
            }
        },
    }
}

/// The comparable types as a runtime set.
fn comparable_set() -> (s: ValueTypeSet)
    ensures
        s == spec_comparable_set(),
{
    ValueTypeSet {
        has_ref: true,
        has_boolean: false,
        has_instant: true,
        has_long: true,
        has_double: true,
        has_string: false,
        has_keyword: false,
        has_uuid: false,
        has_bytes: false,
    }
}

/// Bind an optional variable and narrow it.
fn do_bind_opt(
    vars: &mut Vec<String>,
    types: &mut Vec<ValueTypeSet>,
    ov: Option<String>,
    s: ValueTypeSet,
    Ghost(cl): Ghost<Seq<ResolvedClause>>,
) -> (r: (Option<usize>, bool))
    requires
        old(vars)@.len() == old(types)@.len(),
    ensures
        final(vars)@.len() == final(types)@.len(),
        ({
            let (m2, oc, empty) = spec_bind_opt(model_of(old(vars)@, old(types)@, cl), ov, s);
            final(vars)@ == m2.vars && final(types)@ == m2.types && m2.clauses == cl && r.0 == oc
                && r.1 == empty
        }),
{
    match ov {
        None => (None, false),
        Some(v) => {
            let c = bind_var_exec(vars, types, v);
            let empty = narrow_exec(types, c, s);
            (Some(c), empty)
        },
    }
}

/// Resolve the search term of a fulltext clause.
fn do_search_term(
    vars: &mut Vec<String>,
    types: &mut Vec<ValueTypeSet>,
    search: FnArg,
    Ghost(cl): Ghost<Seq<ResolvedClause>>,
) -> (r: Result<ValueResult, CoreError>)
    requires
        old(vars)@.len() == old(types)@.len(),
    ensures
        final(vars)@.len() == final(types)@.len(),
        match step_search_term(model_of(old(vars)@, old(types)@, cl), search) {
            ValueOut::VGo(m2, rv) => r matches Ok(vr) && vr matches ValueResult::VResolved(rv2)
                && rv2 == rv && final(vars)@ == m2.vars && final(types)@ == m2.types && m2.clauses
                == cl,
            ValueOut::VEmpty(m2) => r matches Ok(vr) && vr is VCollapsed && final(vars)@
                == m2.vars && final(types)@ == m2.types && m2.clauses == cl,
            ValueOut::VFail(f) => r matches Err(e) && fail_corresponds(e, f),
        },
{
    match search {
        FnArg::Constant(tv) => {
            if matches!(tv.value_type(), ValueType::String) {
                Ok(ValueResult::VResolved(ResolvedValuePlace::Value(tv)))
            } else {
                Err(
                    CoreError::InvalidArgument(
                        "search term".to_owned(),
                        "a string".to_owned(),
                        2,
                    ),
                )
            }
        },
        FnArg::Variable(v) => {
            proof {
                lemma_find_var_range(vars@, v);
            }
            match find_var_exec(vars, &v) {
                None => Err(
                    CoreError::InvalidArgument(v, "bound string variable".to_owned(), 2),
                ),
                Some(c) => {
                    let empty = narrow_exec(types, c, ValueTypeSet::of_one(ValueType::String));
                    if empty {
                        Ok(ValueResult::VCollapsed)
                    } else {
                        Ok(ValueResult::VResolved(ResolvedValuePlace::Column(c)))
                    }
                },
            }
        },
        FnArg::EntidOrInteger(_) => Err(
            CoreError::InvalidArgument("search term".to_owned(), "a string".to_owned(), 2),
        ),
    }
}

/// Resolve one clause of `:where`; `Ok(true)` is a proved collapse.
fn do_clause(
    idents: &Vec<(Keyword, i64)>,
    attrs: &Vec<(i64, Attribute)>,
    vars: &mut Vec<String>,
    types: &mut Vec<ValueTypeSet>,
    clauses: &mut Vec<ResolvedClause>,
    c: WhereClause,
) -> (r: Result<bool, CoreError>)
    requires
        old(vars)@.len() == old(types)@.len(),
    ensures
        final(vars)@.len() == final(types)@.len(),
        match step_clause(
            idents@,
            attrs@,
            model_of(old(vars)@, old(types)@, old(clauses)@),
            c,
        ) {
            ClauseOut::CGo(m2) => r matches Ok(b) && !b && final(vars)@ == m2.vars
                && final(types)@ == m2.types && final(clauses)@ == m2.clauses,
            ClauseOut::CEmpty(m2) => r matches Ok(b) && b && final(vars)@ == m2.vars
                && final(types)@ == m2.types && final(clauses)@ == m2.clauses,
            ClauseOut::CFail(f) => r matches Err(e) && fail_corresponds(e, f),
        },
{
    match c {
        WhereClause::Pattern(p) => do_pattern(idents, attrs, vars, types, clauses, p),
        WhereClause::TypeReq(v, t) => {
            proof {
                lemma_find_var_range(vars@, v);
            }
            match find_var_exec(vars, &v) {
                None => Err(
                    CoreError::InvalidArgument(v, "bound variable".to_owned(), 0),
                ),
                Some(c2) => {
                    let empty = narrow_exec(types, c2, ValueTypeSet::of_one(t));
                    Ok(empty)
                },
            }
        },
        WhereClause::Ground(tv, v) => {
            let c2 = bind_var_exec(vars, types, v);
            let empty = narrow_exec(types, c2, ValueTypeSet::of_one(tv.value_type()));
            if empty {
                Ok(true)
            } else {
                clauses.push(ResolvedClause::Ground { value: tv, column: c2 });
                Ok(false)
            }
        },
        WhereClause::Pred(op, mut args) => {
            if args.len() != 2 {
                return Err(
                    CoreError::InvalidArgument(
                        "predicate".to_owned(),
                        "two arguments".to_owned(),
                        0,
                    ),
                );
            }
            let ghost args0 = args@;
            let a0 = args.remove(0);
            let a1 = args.remove(0);
            proof {
                assert(a0 == args0[0]);
                assert(a1 == args0[1]);
            }
            let compares = pred_compares(op);
            let left = match do_pred_arg(vars, types, a0, 0, compares, Ghost(clauses@))? {
                ValueResult::VResolved(rv) => rv,
                ValueResult::VCollapsed => {
                    return Ok(true);
                },
            };
            let right = match do_pred_arg(vars, types, a1, 1, compares, Ghost(clauses@))? {
                ValueResult::VResolved(rv) => rv,
                ValueResult::VCollapsed => {
                    return Ok(true);
                },
            };
            clauses.push(ResolvedClause::Pred { op, left, right });
            Ok(false)
        },
        WhereClause::Fulltext(kw, search, b) => {
            let e = match crate::schema::lookup_entid_exec(idents, &kw) {
                Some(e) => e,
                None => {
                    return Err(CoreError::UnrecognizedIdent(render_keyword(&kw)));
                },
            };
            let a = match crate::schema::lookup_attribute_exec(attrs, e) {
                Some(a) => a,
                None => {
                    return Err(CoreError::UnrecognizedEntid(e));
                },
            };
            if !a.fulltext {
                return Err(
                    CoreError::InvalidArgument(
                        render_keyword(&kw),
                        "a fulltext attribute".to_owned(),
                        1,
                    ),
                );
            }
            let rs = match do_search_term(vars, types, search, Ghost(clauses@))? {
                ValueResult::VResolved(rv) => rv,
                ValueResult::VCollapsed => {
                    return Ok(true);
                },
            };
            let FulltextBinding { entity, value, tx, score } = b;
            let (ce, emp2) = do_bind_opt(
                vars,
                types,
                entity,
                ValueTypeSet::of_one(ValueType::Ref),
                Ghost(clauses@),
            );
            let (cv, emp3) = do_bind_opt(
                vars,
                types,
                value,
                ValueTypeSet::of_one(ValueType::String),
                Ghost(clauses@),
            );
            let (ct, emp4) = do_bind_opt(
                vars,
                types,
                tx,
                ValueTypeSet::of_one(ValueType::Ref),
                Ghost(clauses@),
            );
            let (cs, emp5) = do_bind_opt(
                vars,
                types,
                score,
                ValueTypeSet::of_one(ValueType::Double),
                Ghost(clauses@),
            );
            if emp2 || emp3 || emp4 || emp5 {
                Ok(true)
            } else {
                clauses.push(
                    ResolvedClause::Fulltext {
                        attr: e,
                        search: rs,
                        entity: ce,
                        value: cv,
                        tx: ct,
                        score: cs,
                    },
                );
                Ok(false)
            }
        },
        WhereClause::TxIds(after, before, v) => {
            let ra = match do_pred_arg(vars, types, after, 1, true, Ghost(clauses@))? {
                ValueResult::VResolved(rv) => rv,
                ValueResult::VCollapsed => {
                    return Ok(true);
                },
            };
            let rb = match do_pred_arg(vars, types, before, 2, true, Ghost(clauses@))? {
                ValueResult::VResolved(rv) => rv,
                ValueResult::VCollapsed => {
                    return Ok(true);
                },
            };
            let c2 = bind_var_exec(vars, types, v);
            let empty = narrow_exec(types, c2, ValueTypeSet::of_one(ValueType::Ref));
            if empty {
                Ok(true)
            } else {
                clauses.push(ResolvedClause::TxIds { after: ra, before: rb, column: c2 });
                Ok(false)
            }
        },
        WhereClause::TxData(tx, mut binds) => {
            if binds.len() != 5 {
                return Err(
                    CoreError::InvalidArgument(
                        "tx-data".to_owned(),
                        "five binding places".to_owned(),
                        0,
                    ),
                );
            }
            let rtx = match do_pred_arg(vars, types, tx, 1, true, Ghost(clauses@))? {
                ValueResult::VResolved(rv) => rv,
                ValueResult::VCollapsed => {
                    return Ok(true);
                },
            };
            let ghost b0 = binds@;
            let be = binds.remove(0);
            let ba = binds.remove(0);
            let bv = binds.remove(0);
            let bt = binds.remove(0);
            let bd = binds.remove(0);
            proof {
                assert(be == b0[0]);
                assert(ba == b0[1]);
                assert(bv == b0[2]);
                assert(bt == b0[3]);
                assert(bd == b0[4]);
            }
            let (ce, emp2) = do_bind_opt(
                vars,
                types,
                be,
                ValueTypeSet::of_one(ValueType::Ref),
                Ghost(clauses@),
            );
            let (ca, emp3) = do_bind_opt(
                vars,
                types,
                ba,
                ValueTypeSet::of_one(ValueType::Ref),
                Ghost(clauses@),
            );
            let (cv, emp4) = do_bind_opt(vars, types, bv, ValueTypeSet::any(), Ghost(clauses@));
            let (ct, emp5) = do_bind_opt(
                vars,
                types,
                bt,
                ValueTypeSet::of_one(ValueType::Ref),
                Ghost(clauses@),
            );
            let (cd, emp6) = do_bind_opt(
                vars,
                types,
                bd,
                ValueTypeSet::of_one(ValueType::Boolean),
                Ghost(clauses@),
            );
            if emp2 || emp3 || emp4 || emp5 || emp6 {
                Ok(true)
            } else {
                clauses.push(
                    ResolvedClause::TxData {
                        tx: rtx,
                        entity: ce,
                        attribute: ca,
                        value: cv,
                        tx_col: ct,
                        added: cd,
                    },
                );
                Ok(false)
            }
        },
    }
}

/// Whether the predicate orders its operands.
fn pred_compares(op: PredicateOp) -> (r: bool)
    ensures
        r == spec_pred_compares(op),
{
    match op {
        PredicateOp::Lt | PredicateOp::Le | PredicateOp::Gt | PredicateOp::Ge
        | PredicateOp::Unpermute => true,
        PredicateOp::Eq | PredicateOp::NotEq | PredicateOp::Differ => false,
    }
}

/// The `min`/`max` types as a runtime set.
fn minmax_set() -> (s: ValueTypeSet)
    ensures
        s == spec_minmax_set(),
{
    ValueTypeSet {
        has_ref: true,
        has_boolean: false,
        has_instant: true,
        has_long: true,
        has_double: true,
        has_string: true,
        has_keyword: true,
        has_uuid: true,
        has_bytes: false,
    }
}

/// Check one find element against the plan.
fn check_element_exec(
    vars: &Vec<String>,
    types: &Vec<ValueTypeSet>,
    el: &Element,
    pos: usize,
    Ghost(cl): Ghost<Seq<ResolvedClause>>,
) -> (r: Result<(), CoreError>)
    requires
        vars@.len() == types@.len(),
    ensures
        match check_element(model_of(vars@, types@, cl), *el, pos as int) {
            None => r is Ok,
            Some(f) => r matches Err(e) && fail_corresponds(e, f),
        },
{
    match el {
        Element::Variable(v) => {
            proof {
                lemma_find_var_range(vars@, *v);
            }
            match find_var_exec(vars, v) {
                Some(_) => Ok(()),
                None => Err(
                    CoreError::InvalidArgument(
                        v.as_str().to_owned(),
                        "bound variable".to_owned(),
                        pos,
                    ),
                ),
            }
        },
        Element::Aggregate(op, v) => {
            proof {
                lemma_find_var_range(vars@, *v);
            }
            match find_var_exec(vars, v) {
                None => Err(
                    CoreError::InvalidArgument(
                        v.as_str().to_owned(),
                        "bound variable".to_owned(),
                        pos,
                    ),
                ),
                Some(c) => {
                    let ts = types[c];
                    match op {
                        AggregateOp::Sum | AggregateOp::Avg => {
                            if !ts.is_subset(&ValueTypeSet::of_numeric()) {
                                Err(CoreError::CannotApplyAggregateOperationToTypes(*op, ts))
                            } else {
                                Ok(())
                            }
                        },
                        AggregateOp::Min | AggregateOp::Max => {
                            if !ts.is_subset(&minmax_set()) {
                                Err(CoreError::CannotApplyAggregateOperationToTypes(*op, ts))
                            } else {
                                Ok(())
                            }
                        },
                        _ => Ok(()),
                    }
                },
            }
        },
    }
}

/// Check the find elements, left to right.
fn check_elements_exec(
    vars: &Vec<String>,
    types: &Vec<ValueTypeSet>,
    els: &Vec<Element>,
    Ghost(cl): Ghost<Seq<ResolvedClause>>,
) -> (r: Result<(), CoreError>)
    requires
        vars@.len() == types@.len(),
    ensures
        match check_elements(model_of(vars@, types@, cl), els@, 0) {
            None => r is Ok,
            Some(f) => r matches Err(e) && fail_corresponds(e, f),
        },
{
    let ghost m = model_of(vars@, types@, cl);
    let ghost sq = els@;
    let mut i: usize = 0;
    proof {
        assert(sq.skip(0) =~= sq);
    }
    while i < els.len()
        invariant
            i <= sq.len(),
            sq == els@,
            vars@.len() == types@.len(),
            m == model_of(vars@, types@, cl),
            check_elements(m, sq, 0) == check_elements(m, sq.skip(i as int), i as int),
        decreases sq.len() - i,
    {
        proof {
            assert(sq.skip(i as int)[0] == sq[i as int]);
            assert(sq.skip(i as int).drop_first() =~= sq.skip(i as int + 1));
        }
        match check_element_exec(vars, types, &els[i], i, Ghost(cl)) {
            Ok(()) => {},
            Err(e) => {
                return Err(e);
            },
        }
        i += 1;
    }
    proof {
        assert(sq.skip(i as int) =~= Seq::<Element>::empty());
    }
    Ok(())
}

/// Count the `min`/`max` aggregates.
fn count_min_max_exec(els: &Vec<Element>) -> (r: usize)
    ensures
        r as int == count_min_max(els@),
{
    let ghost sq = els@;
    let mut i: usize = 0;
    let mut n: usize = 0;
    proof {
        assert(sq.skip(0) =~= sq);
    }
    while i < els.len()
        invariant
            i <= sq.len(),
            n <= i,
            sq == els@,
            count_min_max(sq) == n + count_min_max(sq.skip(i as int)),
        decreases sq.len() - i,
    {
        proof {
            assert(sq.skip(i as int)[0] == sq[i as int]);
            assert(sq.skip(i as int).drop_first() =~= sq.skip(i as int + 1));
        }
        match &els[i] {
            Element::Aggregate(AggregateOp::Min, _) => {
                n += 1;
            },
            Element::Aggregate(AggregateOp::Max, _) => {
                n += 1;
            },
            _ => {},
        }
        i += 1;
    }
    proof {
        assert(sq.skip(i as int) =~= Seq::<Element>::empty());
    }
    n
}

/// Count the `the` aggregates.
fn count_the_exec(els: &Vec<Element>) -> (r: usize)
    ensures
        r as int == count_the(els@),
{
    let ghost sq = els@;
    let mut i: usize = 0;
    let mut n: usize = 0;
    proof {
        assert(sq.skip(0) =~= sq);
    }
    while i < els.len()
        invariant
            i <= sq.len(),
            n <= i,
            sq == els@,
            count_the(sq) == n + count_the(sq.skip(i as int)),
        decreases sq.len() - i,
    {
        proof {
            assert(sq.skip(i as int)[0] == sq[i as int]);
            assert(sq.skip(i as int).drop_first() =~= sq.skip(i as int + 1));
        }
        match &els[i] {
            Element::Aggregate(AggregateOp::The, _) => {
                n += 1;
            },
            _ => {},
        }
        i += 1;
    }
    proof {
        assert(sq.skip(i as int) =~= Seq::<Element>::empty());
    }
    n
}

/// Check that every `:with` variable is bound.
fn check_with_exec(
    vars: &Vec<String>,
    types: &Vec<ValueTypeSet>,
    ws: &Vec<String>,
    Ghost(cl): Ghost<Seq<ResolvedClause>>,
) -> (r: Result<(), CoreError>)
    requires
        vars@.len() == types@.len(),
    ensures
        match check_with(model_of(vars@, types@, cl), ws@, 0) {
            None => r is Ok,
            Some(f) => r matches Err(e) && fail_corresponds(e, f),
        },
{
    let ghost m = model_of(vars@, types@, cl);
    let ghost sq = ws@;
    let mut i: usize = 0;
    proof {
        assert(sq.skip(0) =~= sq);
    }
    while i < ws.len()
        invariant
            i <= sq.len(),
            sq == ws@,
            vars@.len() == types@.len(),
            m == model_of(vars@, types@, cl),
            check_with(m, sq, 0) == check_with(m, sq.skip(i as int), i as int),
        decreases sq.len() - i,
    {
        proof {
            assert(sq.skip(i as int)[0] == sq[i as int]);
            assert(sq.skip(i as int).drop_first() =~= sq.skip(i as int + 1));
        }
        match find_var_exec(vars, &ws[i]) {
            Some(_) => {},
            None => {
                return Err(
                    CoreError::InvalidArgument(
                        ws[i].as_str().to_owned(),
                        "bound variable".to_owned(),
                        i,
                    ),
                );
            },
        }
        i += 1;
    }
    proof {
        assert(sq.skip(i as int) =~= Seq::<String>::empty());
    }
    Ok(())
}

/// Whether a find element projects this variable un-aggregated.
fn elements_project_var_exec(els: &Vec<Element>, v: &String) -> (r: bool)
    ensures
        r == elements_project_var(els@, *v),
{
    let ghost sq = els@;
    let mut i: usize = 0;
    proof {
        assert(sq.skip(0) =~= sq);
    }
    while i < els.len()
        invariant
            i <= sq.len(),
            sq == els@,
            elements_project_var(sq, *v) == elements_project_var(sq.skip(i as int), *v),
        decreases sq.len() - i,
    {
        proof {
            assert(sq.skip(i as int)[0] == sq[i as int]);
            assert(sq.skip(i as int).drop_first() =~= sq.skip(i as int + 1));
        }
        match &els[i] {
            Element::Variable(w) => {
                if String::eq(w, v) {
                    return true;
                }
            },
            _ => {},
        }
        i += 1;
    }
    proof {
        assert(sq.skip(i as int) =~= Seq::<Element>::empty());
    }
    false
}

/// Whether a variable list holds this name.
fn vars_contain_exec(ws: &Vec<String>, v: &String) -> (r: bool)
    ensures
        r == vars_contain(ws@, *v),
{
    let ghost sq = ws@;
    let mut i: usize = 0;
    proof {
        assert(sq.skip(0) =~= sq);
    }
    while i < ws.len()
        invariant
            i <= sq.len(),
            sq == ws@,
            vars_contain(sq, *v) == vars_contain(sq.skip(i as int), *v),
        decreases sq.len() - i,
    {
        proof {
            assert(sq.skip(i as int)[0] == sq[i as int]);
            assert(sq.skip(i as int).drop_first() =~= sq.skip(i as int + 1));
        }
        if String::eq(&ws[i], v) {
            return true;
        }
        i += 1;
    }
    proof {
        assert(sq.skip(i as int) =~= Seq::<String>::empty());
    }
    false
}

/// Check the orderings against the projection and `:with`.
fn check_order_exec(els: &Vec<Element>, ws: &Vec<String>, os: &Vec<OrderBy>) -> (r: Result<
    (),
    CoreError,
>)
    ensures
        match check_order(els@, ws@, os@, 0) {
            None => r is Ok,
            Some(f) => r matches Err(e) && fail_corresponds(e, f),
        },
{
    let ghost sq = os@;
    let mut i: usize = 0;
    proof {
        assert(sq.skip(0) =~= sq);
    }
    while i < os.len()
        invariant
            i <= sq.len(),
            sq == os@,
            check_order(els@, ws@, sq, 0) == check_order(els@, ws@, sq.skip(i as int), i as int),
        decreases sq.len() - i,
    {
        proof {
            assert(sq.skip(i as int)[0] == sq[i as int]);
            assert(sq.skip(i as int).drop_first() =~= sq.skip(i as int + 1));
        }
        let ok = elements_project_var_exec(els, &os[i].1) || vars_contain_exec(ws, &os[i].1);
        if !ok {
            return Err(
                CoreError::InvalidArgument(
                    os[i].1.as_str().to_owned(),
                    "a projected or :with variable".to_owned(),
                    i,
                ),
            );
        }
        i += 1;
    }
    proof {
        assert(sq.skip(i as int) =~= Seq::<OrderBy>::empty());
    }
    Ok(())
}

/// Which find shape the query declared, while its elements are checked.
enum FindKind {
    Rel,
    Tuple,
    Coll,
    Scalar,
}

/// Algebrize a parsed query against a schema: resolve and type the
/// clauses, then check the projection, aggregates, grouping and
/// ordering. A proved collapse is not an error: the plan comes back
/// marked `empty_because`.
#[verifier::loop_isolation(false)]
pub fn algebrize(schema: &Schema, query: ParsedQuery) -> (r: Result<AlgebrizedQuery, CoreError>)
    ensures
        match algebrize_model(
            schema.ident_map@,
            schema.attribute_map@,
            query.find,
            query.with_vars@,
            query.where_clauses@,
            query.order@,
        ) {
            QueryOut::QFail(f) => r matches Err(e) && fail_corresponds(e, f),
            QueryOut::QGo(m, empty) => r matches Ok(aq) && aq.cc.vars@ == m.vars
                && aq.cc.known_types@ == m.types && aq.cc.clauses@ == m.clauses
                && aq.cc.empty_because == (if empty {
                Some(EmptyBecause::TypeMismatch)
            } else {
                None::<EmptyBecause>
            }) && aq.find == query.find && aq.in_vars@ == query.in_vars@ && aq.with_vars@
                == query.with_vars@ && aq.order@ == query.order@,
        },
{
    let ParsedQuery { find, in_vars, with_vars, where_clauses, order } = query;

    let mut vars: Vec<String> = Vec::new();
    let mut types: Vec<ValueTypeSet> = Vec::new();
    let mut clauses: Vec<ResolvedClause> = Vec::new();
    let ghost ts = where_clauses@;
    let ghost m0 = model_of(Seq::empty(), Seq::empty(), Seq::empty());
    let mut collapsed = false;
    let n = where_clauses.len();
    let mut rest = where_clauses;
    let mut i: usize = 0;
    proof {
        assert(ts.skip(0) =~= ts);
    }
    while i < n && !collapsed
        invariant
            i <= n,
            n == ts.len(),
            vars@.len() == types@.len(),
            rest@ == ts.skip(i as int),
            !collapsed ==> fold_clauses(
                schema.ident_map@,
                schema.attribute_map@,
                m0,
                ts,
            ) == fold_clauses(
                schema.ident_map@,
                schema.attribute_map@,
                model_of(vars@, types@, clauses@),
                ts.skip(i as int),
            ),
            collapsed ==> fold_clauses(schema.ident_map@, schema.attribute_map@, m0, ts)
                == ClauseOut::CEmpty(model_of(vars@, types@, clauses@)),
        decreases n - i,
    {
        proof {
            assert(ts.skip(i as int)[0] == ts[i as int]);
            assert(ts.skip(i as int).drop_first() =~= ts.skip(i as int + 1));
        }
        let c = rest.remove(0);
        match do_clause(&schema.ident_map, &schema.attribute_map, &mut vars, &mut types, &mut clauses, c) {
            Ok(b) => {
                if b {
                    collapsed = true;
                }
            },
            Err(e) => {
                return Err(e);
            },
        }
        i += 1;
    }
    proof {
        if !collapsed {
            assert(ts.skip(i as int) =~= Seq::<WhereClause>::empty());
        }
    }

    if collapsed {
        return Ok(
            AlgebrizedQuery {
                find,
                in_vars,
                with_vars,
                order,
                cc: ConjoiningClauses {
                    vars,
                    known_types: types,
                    clauses,
                    empty_because: Some(EmptyBecause::TypeMismatch),
                },
            },
        );
    }

    // Gather the find elements for checking, remembering the shape.
    let (kind, mut els) = match find {
        FindSpec::FindRel(v) => (FindKind::Rel, v),
        FindSpec::FindTuple(v) => (FindKind::Tuple, v),
        FindSpec::FindColl(el) => {
            let mut v: Vec<Element> = Vec::new();
            v.push(el);
            (FindKind::Coll, v)
        },
        FindSpec::FindScalar(el) => {
            let mut v: Vec<Element> = Vec::new();
            v.push(el);
            (FindKind::Scalar, v)
        },
    };
    proof {
        assert(els@ =~= find_elements(query.find));
    }

    match check_elements_exec(&vars, &types, &els, Ghost(clauses@)) {
        Ok(()) => {},
        Err(e) => {
            return Err(e);
        },
    }
    let mm = count_min_max_exec(&els);
    let th = count_the_exec(&els);
    if th > 0 && !(th == 1 && mm <= 1) {
        return Err(CoreError::AmbiguousAggregates(mm, th));
    }
    match check_with_exec(&vars, &types, &with_vars, Ghost(clauses@)) {
        Ok(()) => {},
        Err(e) => {
            return Err(e);
        },
    }
    match check_order_exec(&els, &with_vars, &order) {
        Ok(()) => {},
        Err(e) => {
            return Err(e);
        },
    }

    let find2 = match kind {
        FindKind::Rel => FindSpec::FindRel(els),
        FindKind::Tuple => FindSpec::FindTuple(els),
        FindKind::Coll => FindSpec::FindColl(els.remove(0)),
        FindKind::Scalar => FindSpec::FindScalar(els.remove(0)),
    };
    proof {
        assert(find2 == query.find);
    }
    Ok(
        AlgebrizedQuery {
            find: find2,
            in_vars,
            with_vars,
            order,
            cc: ConjoiningClauses {
                vars,
                known_types: types,
                clauses,
                empty_because: None,
            },
        },
    )
}

} // verus!
