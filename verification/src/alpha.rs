//! Alpha-equivalence of queries: renaming a variable to a fresh name
//! leaves the algebrized plan alone, and with it the query's result.
//! The plan is name-free — clauses and type sets speak of columns — so
//! the whole renaming argument is that every name resolves to the same
//! column as before; the final theorem carries that through seeding,
//! evaluation, projection and ordering to the packaged value.

use vstd::prelude::*;
use crate::algebrize::{
    algebrize_model, check_element, check_elements, check_order, check_with, count_min_max,
    count_the, elements_project_var, find_elements, find_var, fold_clauses, spec_bind_opt,
    spec_bind_var, step_attribute_place, step_clause, step_entity_place, step_pred_arg,
    step_search_term, step_value_place, vars_contain, AlgFailure, ArgOut, CcModel, ClauseOut,
    PlaceOut, QueryOut, ValueOut,
};
use crate::attributes::Attribute;
use crate::query::{
    Element, FindSpec, FnArg, OrderBy, PatternNonValuePlace, PatternValuePlace, WhereClause,
};
use crate::values::Keyword;

verus! {

/// The renaming of one name: `a` becomes `b`, everything else stays.
pub open spec fn rn(s: Seq<char>, a: Seq<char>, b: Seq<char>) -> Seq<char> {
    if s == a {
        b
    } else {
        s
    }
}

/// One variable name, renamed; the fresh name never occurs on the left.
pub open spec fn renamed_str(x: String, y: String, a: Seq<char>, b: Seq<char>) -> bool {
    y@ == rn(x@, a, b) && x@ != b
}

/// The variable lists of two models, pointwise renamed.
pub open spec fn renamed_vars(v1: Seq<String>, v2: Seq<String>, a: Seq<char>, b: Seq<char>) -> bool {
    &&& v1.len() == v2.len()
    &&& forall|i: int| 0 <= i < v1.len() ==> renamed_str(#[trigger] v1[i], v2[i], a, b)
}

/// Two walks related by the renaming: same types, same name-free
/// clauses, renamed variable lists.
pub open spec fn rel_model(m1: CcModel, m2: CcModel, a: Seq<char>, b: Seq<char>) -> bool {
    &&& m1.types == m2.types
    &&& m1.clauses == m2.clauses
    &&& renamed_vars(m1.vars, m2.vars, a, b)
}

/// Renamed optional variables.
pub open spec fn renamed_opt(
    x: Option<String>,
    y: Option<String>,
    a: Seq<char>,
    b: Seq<char>,
) -> bool {
    match (x, y) {
        (None, None) => true,
        (Some(x1), Some(y1)) => renamed_str(x1, y1, a, b),
        _ => false,
    }
}

/// Renamed entity/attribute/tx places: only variables change.
pub open spec fn renamed_place(
    p1: PatternNonValuePlace,
    p2: PatternNonValuePlace,
    a: Seq<char>,
    b: Seq<char>,
) -> bool {
    match (p1, p2) {
        (PatternNonValuePlace::Variable(v1), PatternNonValuePlace::Variable(v2)) => renamed_str(
            v1,
            v2,
            a,
            b,
        ),
        _ => p1 == p2 && !(p1 is Variable),
    }
}

/// Renamed value places.
pub open spec fn renamed_vplace(
    p1: PatternValuePlace,
    p2: PatternValuePlace,
    a: Seq<char>,
    b: Seq<char>,
) -> bool {
    match (p1, p2) {
        (PatternValuePlace::Variable(v1), PatternValuePlace::Variable(v2)) => renamed_str(
            v1,
            v2,
            a,
            b,
        ),
        _ => p1 == p2 && !(p1 is Variable),
    }
}

/// Renamed predicate arguments.
pub open spec fn renamed_arg(x: FnArg, y: FnArg, a: Seq<char>, b: Seq<char>) -> bool {
    match (x, y) {
        (FnArg::Variable(v1), FnArg::Variable(v2)) => renamed_str(v1, v2, a, b),
        _ => x == y && !(x is Variable),
    }
}

/// Renamed argument lists.
pub open spec fn renamed_args(xs: Seq<FnArg>, ys: Seq<FnArg>, a: Seq<char>, b: Seq<char>) -> bool {
    &&& xs.len() == ys.len()
    &&& forall|i: int| 0 <= i < xs.len() ==> renamed_arg(#[trigger] xs[i], ys[i], a, b)
}

/// Renamed optional variable lists.
pub open spec fn renamed_opts(
    xs: Seq<Option<String>>,
    ys: Seq<Option<String>>,
    a: Seq<char>,
    b: Seq<char>,
) -> bool {
    &&& xs.len() == ys.len()
    &&& forall|i: int| 0 <= i < xs.len() ==> renamed_opt(#[trigger] xs[i], ys[i], a, b)
}

/// Renamed clauses: structure and constants equal, variables renamed.
pub open spec fn renamed_clause(c1: WhereClause, c2: WhereClause, a: Seq<char>, b: Seq<char>) -> bool {
    match (c1, c2) {
        (WhereClause::Pattern(p1), WhereClause::Pattern(p2)) => {
            &&& renamed_place(p1.entity, p2.entity, a, b)
            &&& renamed_place(p1.attribute, p2.attribute, a, b)
            &&& renamed_vplace(p1.value, p2.value, a, b)
            &&& renamed_place(p1.tx, p2.tx, a, b)
        },
        (WhereClause::TypeReq(v1, t1), WhereClause::TypeReq(v2, t2)) => t1 == t2 && renamed_str(
            v1,
            v2,
            a,
            b,
        ),
        (WhereClause::Ground(tv1, v1), WhereClause::Ground(tv2, v2)) => tv1 == tv2 && renamed_str(
            v1,
            v2,
            a,
            b,
        ),
        (WhereClause::Pred(op1, as1), WhereClause::Pred(op2, as2)) => op1 == op2 && renamed_args(
            as1@,
            as2@,
            a,
            b,
        ),
        (WhereClause::Fulltext(k1, s1, b1), WhereClause::Fulltext(k2, s2, b2)) => {
            &&& k1 == k2
            &&& renamed_arg(s1, s2, a, b)
            &&& renamed_opt(b1.entity, b2.entity, a, b)
            &&& renamed_opt(b1.value, b2.value, a, b)
            &&& renamed_opt(b1.tx, b2.tx, a, b)
            &&& renamed_opt(b1.score, b2.score, a, b)
        },
        (WhereClause::TxIds(x1, y1, v1), WhereClause::TxIds(x2, y2, v2)) => {
            &&& renamed_arg(x1, x2, a, b)
            &&& renamed_arg(y1, y2, a, b)
            &&& renamed_str(v1, v2, a, b)
        },
        (WhereClause::TxData(x1, bs1), WhereClause::TxData(x2, bs2)) => {
            &&& renamed_arg(x1, x2, a, b)
            &&& renamed_opts(bs1@, bs2@, a, b)
        },
        _ => false,
    }
}

/// Renamed clause lists.
pub open spec fn renamed_clauses(
    cs1: Seq<WhereClause>,
    cs2: Seq<WhereClause>,
    a: Seq<char>,
    b: Seq<char>,
) -> bool {
    &&& cs1.len() == cs2.len()
    &&& forall|i: int| 0 <= i < cs1.len() ==> renamed_clause(#[trigger] cs1[i], cs2[i], a, b)
}

/// Renamed find elements.
pub open spec fn renamed_element(e1: Element, e2: Element, a: Seq<char>, b: Seq<char>) -> bool {
    match (e1, e2) {
        (Element::Variable(v1), Element::Variable(v2)) => renamed_str(v1, v2, a, b),
        (Element::Aggregate(o1, v1), Element::Aggregate(o2, v2)) => o1 == o2 && renamed_str(
            v1,
            v2,
            a,
            b,
        ),
        _ => false,
    }
}

/// Renamed element lists.
pub open spec fn renamed_elements(
    es1: Seq<Element>,
    es2: Seq<Element>,
    a: Seq<char>,
    b: Seq<char>,
) -> bool {
    &&& es1.len() == es2.len()
    &&& forall|i: int| 0 <= i < es1.len() ==> renamed_element(#[trigger] es1[i], es2[i], a, b)
}

/// Renamed find specifications: the same shape over renamed elements.
pub open spec fn renamed_find(f1: FindSpec, f2: FindSpec, a: Seq<char>, b: Seq<char>) -> bool {
    match (f1, f2) {
        (FindSpec::FindRel(e1), FindSpec::FindRel(e2)) => renamed_elements(e1@, e2@, a, b),
        (FindSpec::FindTuple(e1), FindSpec::FindTuple(e2)) => renamed_elements(e1@, e2@, a, b),
        (FindSpec::FindColl(e1), FindSpec::FindColl(e2)) => renamed_element(e1, e2, a, b),
        (FindSpec::FindScalar(e1), FindSpec::FindScalar(e2)) => renamed_element(e1, e2, a, b),
        _ => false,
    }
}

/// Renamed orderings.
pub open spec fn renamed_order(
    os1: Seq<OrderBy>,
    os2: Seq<OrderBy>,
    a: Seq<char>,
    b: Seq<char>,
) -> bool {
    &&& os1.len() == os2.len()
    &&& forall|i: int|
        0 <= i < os1.len() ==> ((#[trigger] os1[i]).0 == os2[i].0 && renamed_str(
            os1[i].1,
            os2[i].1,
            a,
            b,
        ))
}

/// Failures never carry the renamed variable backwards, so related runs
/// fail alike up to the renaming of the named symbol.
pub open spec fn renamed_failure(f1: AlgFailure, f2: AlgFailure, a: Seq<char>, b: Seq<char>) -> bool {
    match (f1, f2) {
        (AlgFailure::InvalidArgument(s1, e1, p1), AlgFailure::InvalidArgument(s2, e2, p2)) => e1
            == e2 && p1 == p2 && (s2 == rn(s1, a, b) || s2 == s1),
        _ => f1 == f2,
    }
}

/// The renaming resolves names to the same columns.
proof fn lemma_find_var_rename(
    v1: Seq<String>,
    v2: Seq<String>,
    x1: String,
    x2: String,
    a: Seq<char>,
    b: Seq<char>,
)
    requires
        renamed_vars(v1, v2, a, b),
        renamed_str(x1, x2, a, b),
        a != b,
    ensures
        find_var(v2, x2) == find_var(v1, x1),
    decreases v1.len(),
{
    if v1.len() > 0 {
        assert(renamed_str(v1[0], v2[0], a, b));
        // Injectivity: the heads agree exactly when the names do.
        if v1[0]@ == x1@ {
            assert(v2[0]@ == x2@);
        } else {
            if v2[0]@ == x2@ {
                // rn is injective away from b.
                assert(v1[0]@ != b && x1@ != b);
                if v1[0]@ == a && x1@ == a {
                    assert(false);
                } else if v1[0]@ == a {
                    assert(v2[0]@ == b && x2@ == x1@);
                    assert(x1@ == b);
                    assert(false);
                } else if x1@ == a {
                    assert(x2@ == b && v2[0]@ == v1[0]@);
                    assert(v1[0]@ == b);
                    assert(false);
                } else {
                    assert(v1[0]@ == x1@);
                    assert(false);
                }
            }
        }
        if v1[0]@ != x1@ {
            assert(forall|i: int|
                0 <= i < v1.drop_first().len() ==> #[trigger] v1.drop_first()[i] == v1[i + 1]);
            assert(forall|i: int|
                0 <= i < v2.drop_first().len() ==> #[trigger] v2.drop_first()[i] == v2[i + 1]);
            assert(renamed_vars(v1.drop_first(), v2.drop_first(), a, b));
            lemma_find_var_rename(v1.drop_first(), v2.drop_first(), x1, x2, a, b);
        }
    }
}

/// Binding renamed names gives the same column and related lists.
proof fn lemma_bind_var_rename(
    m1: CcModel,
    m2: CcModel,
    x1: String,
    x2: String,
    a: Seq<char>,
    b: Seq<char>,
)
    requires
        rel_model(m1, m2, a, b),
        renamed_str(x1, x2, a, b),
        a != b,
    ensures
        spec_bind_var(m2, x2).1 == spec_bind_var(m1, x1).1,
        rel_model(spec_bind_var(m1, x1).0, spec_bind_var(m2, x2).0, a, b),
{
    lemma_find_var_rename(m1.vars, m2.vars, x1, x2, a, b);
    match find_var(m1.vars, x1) {
        Some(_) => {},
        None => {
            let n1 = spec_bind_var(m1, x1).0;
            let n2 = spec_bind_var(m2, x2).0;
            assert(n1.vars == m1.vars.push(x1));
            assert(n2.vars == m2.vars.push(x2));
            assert forall|i: int| 0 <= i < n1.vars.len() implies renamed_str(
                #[trigger] n1.vars[i],
                n2.vars[i],
                a,
                b,
            ) by {
                if i < m1.vars.len() {
                    assert(n1.vars[i] == m1.vars[i]);
                    assert(n2.vars[i] == m2.vars[i]);
                } else {
                    assert(n1.vars[i] == x1);
                    assert(n2.vars[i] == x2);
                }
            }
        },
    }
}

/// Binding renamed optional names gives the same column and related
/// lists.
proof fn lemma_bind_opt_rename(
    m1: CcModel,
    m2: CcModel,
    o1: Option<String>,
    o2: Option<String>,
    s: crate::values::ValueTypeSet,
    a: Seq<char>,
    b: Seq<char>,
)
    requires
        rel_model(m1, m2, a, b),
        renamed_opt(o1, o2, a, b),
        a != b,
    ensures
        spec_bind_opt(m2, o2, s).1 == spec_bind_opt(m1, o1, s).1,
        spec_bind_opt(m2, o2, s).2 == spec_bind_opt(m1, o1, s).2,
        rel_model(spec_bind_opt(m1, o1, s).0, spec_bind_opt(m2, o2, s).0, a, b),
{
    match (o1, o2) {
        (Some(x1), Some(x2)) => {
            lemma_bind_var_rename(m1, m2, x1, x2, a, b);
        },
        _ => {},
    }
}

/// Related place outcomes: equal resolutions over related walks.
pub open spec fn rel_place_out(o1: PlaceOut, o2: PlaceOut, a: Seq<char>, b: Seq<char>) -> bool {
    match (o1, o2) {
        (PlaceOut::PlaceGo(n1, r1), PlaceOut::PlaceGo(n2, r2)) => rel_model(n1, n2, a, b) && r1
            == r2,
        (PlaceOut::PlaceEmpty(n1), PlaceOut::PlaceEmpty(n2)) => rel_model(n1, n2, a, b),
        (PlaceOut::PlaceFail(f1), PlaceOut::PlaceFail(f2)) => renamed_failure(f1, f2, a, b),
        _ => false,
    }
}

/// Related value-place outcomes.
pub open spec fn rel_value_out(o1: ValueOut, o2: ValueOut, a: Seq<char>, b: Seq<char>) -> bool {
    match (o1, o2) {
        (ValueOut::VGo(n1, r1), ValueOut::VGo(n2, r2)) => rel_model(n1, n2, a, b) && r1 == r2,
        (ValueOut::VEmpty(n1), ValueOut::VEmpty(n2)) => rel_model(n1, n2, a, b),
        (ValueOut::VFail(f1), ValueOut::VFail(f2)) => renamed_failure(f1, f2, a, b),
        _ => false,
    }
}

/// Related argument outcomes.
pub open spec fn rel_arg_out(o1: ArgOut, o2: ArgOut, a: Seq<char>, b: Seq<char>) -> bool {
    match (o1, o2) {
        (ArgOut::ArgGo(n1, r1), ArgOut::ArgGo(n2, r2)) => rel_model(n1, n2, a, b) && r1 == r2,
        (ArgOut::ArgEmpty(n1), ArgOut::ArgEmpty(n2)) => rel_model(n1, n2, a, b),
        (ArgOut::ArgFail(f1), ArgOut::ArgFail(f2)) => renamed_failure(f1, f2, a, b),
        _ => false,
    }
}

/// Related clause outcomes.
pub open spec fn rel_clause_out(o1: ClauseOut, o2: ClauseOut, a: Seq<char>, b: Seq<char>) -> bool {
    match (o1, o2) {
        (ClauseOut::CGo(n1), ClauseOut::CGo(n2)) => rel_model(n1, n2, a, b),
        (ClauseOut::CEmpty(n1), ClauseOut::CEmpty(n2)) => rel_model(n1, n2, a, b),
        (ClauseOut::CFail(f1), ClauseOut::CFail(f2)) => renamed_failure(f1, f2, a, b),
        _ => false,
    }
}

/// Entity and tx positions resolve alike under the renaming.
proof fn lemma_entity_place_rename(
    idents: Seq<(Keyword, i64)>,
    m1: CcModel,
    m2: CcModel,
    p1: PatternNonValuePlace,
    p2: PatternNonValuePlace,
    a: Seq<char>,
    b: Seq<char>,
)
    requires
        rel_model(m1, m2, a, b),
        renamed_place(p1, p2, a, b),
        a != b,
    ensures
        rel_place_out(
            step_entity_place(idents, m1, p1),
            step_entity_place(idents, m2, p2),
            a,
            b,
        ),
{
    match (p1, p2) {
        (PatternNonValuePlace::Variable(v1), PatternNonValuePlace::Variable(v2)) => {
            lemma_bind_var_rename(m1, m2, v1, v2, a, b);
        },
        _ => {},
    }
}

/// The attribute position resolves alike under the renaming.
proof fn lemma_attribute_place_rename(
    idents: Seq<(Keyword, i64)>,
    attrs: Seq<(i64, Attribute)>,
    m1: CcModel,
    m2: CcModel,
    p1: PatternNonValuePlace,
    p2: PatternNonValuePlace,
    a: Seq<char>,
    b: Seq<char>,
)
    requires
        rel_model(m1, m2, a, b),
        renamed_place(p1, p2, a, b),
        a != b,
    ensures
        rel_place_out(
            step_attribute_place(idents, attrs, m1, p1).0,
            step_attribute_place(idents, attrs, m2, p2).0,
            a,
            b,
        ),
        step_attribute_place(idents, attrs, m1, p1).1 == step_attribute_place(
            idents,
            attrs,
            m2,
            p2,
        ).1,
{
    match (p1, p2) {
        (PatternNonValuePlace::Variable(v1), PatternNonValuePlace::Variable(v2)) => {
            lemma_bind_var_rename(m1, m2, v1, v2, a, b);
        },
        _ => {},
    }
}

/// The value position resolves alike under the renaming.
proof fn lemma_value_place_rename(
    idents: Seq<(Keyword, i64)>,
    m1: CcModel,
    m2: CcModel,
    p1: PatternValuePlace,
    p2: PatternValuePlace,
    att: Option<Attribute>,
    a: Seq<char>,
    b: Seq<char>,
)
    requires
        rel_model(m1, m2, a, b),
        renamed_vplace(p1, p2, a, b),
        a != b,
    ensures
        rel_value_out(
            step_value_place(idents, m1, p1, att),
            step_value_place(idents, m2, p2, att),
            a,
            b,
        ),
{
    match (p1, p2) {
        (PatternValuePlace::Variable(v1), PatternValuePlace::Variable(v2)) => {
            lemma_bind_var_rename(m1, m2, v1, v2, a, b);
        },
        _ => {},
    }
}

/// A predicate argument resolves alike under the renaming.
proof fn lemma_pred_arg_rename(
    m1: CcModel,
    m2: CcModel,
    x1: FnArg,
    x2: FnArg,
    pos: int,
    compares: bool,
    a: Seq<char>,
    b: Seq<char>,
)
    requires
        rel_model(m1, m2, a, b),
        renamed_arg(x1, x2, a, b),
        a != b,
    ensures
        rel_arg_out(
            step_pred_arg(m1, x1, pos, compares),
            step_pred_arg(m2, x2, pos, compares),
            a,
            b,
        ),
{
    match (x1, x2) {
        (FnArg::Variable(v1), FnArg::Variable(v2)) => {
            lemma_find_var_rename(m1.vars, m2.vars, v1, v2, a, b);
        },
        _ => {},
    }
}

/// The fulltext search term resolves alike under the renaming.
proof fn lemma_search_term_rename(
    m1: CcModel,
    m2: CcModel,
    x1: FnArg,
    x2: FnArg,
    a: Seq<char>,
    b: Seq<char>,
)
    requires
        rel_model(m1, m2, a, b),
        renamed_arg(x1, x2, a, b),
        a != b,
    ensures
        rel_value_out(step_search_term(m1, x1), step_search_term(m2, x2), a, b),
{
    match (x1, x2) {
        (FnArg::Variable(v1), FnArg::Variable(v2)) => {
            lemma_find_var_rename(m1.vars, m2.vars, v1, v2, a, b);
        },
        _ => {},
    }
}

/// One clause resolves alike under the renaming.
proof fn lemma_step_clause_rename(
    idents: Seq<(Keyword, i64)>,
    attrs: Seq<(i64, Attribute)>,
    m1: CcModel,
    m2: CcModel,
    c1: WhereClause,
    c2: WhereClause,
    a: Seq<char>,
    b: Seq<char>,
)
    requires
        rel_model(m1, m2, a, b),
        renamed_clause(c1, c2, a, b),
        a != b,
    ensures
        rel_clause_out(
            step_clause(idents, attrs, m1, c1),
            step_clause(idents, attrs, m2, c2),
            a,
            b,
        ),
{
    match (c1, c2) {
        (WhereClause::Pattern(p1), WhereClause::Pattern(p2)) => {
            lemma_entity_place_rename(idents, m1, m2, p1.entity, p2.entity, a, b);
            match (step_entity_place(idents, m1, p1.entity), step_entity_place(
                idents,
                m2,
                p2.entity,
            )) {
                (PlaceOut::PlaceGo(n1, _), PlaceOut::PlaceGo(n2, _)) => {
                    lemma_attribute_place_rename(
                        idents,
                        attrs,
                        n1,
                        n2,
                        p1.attribute,
                        p2.attribute,
                        a,
                        b,
                    );
                    match (step_attribute_place(idents, attrs, n1, p1.attribute), step_attribute_place(
                        idents,
                        attrs,
                        n2,
                        p2.attribute,
                    )) {
                        ((PlaceOut::PlaceGo(o1, _), att1), (PlaceOut::PlaceGo(o2, _), att2)) => {
                            lemma_value_place_rename(idents, o1, o2, p1.value, p2.value, att1, a, b);
                            match (step_value_place(idents, o1, p1.value, att1), step_value_place(
                                idents,
                                o2,
                                p2.value,
                                att2,
                            )) {
                                (ValueOut::VGo(q1, _), ValueOut::VGo(q2, _)) => {
                                    lemma_entity_place_rename(idents, q1, q2, p1.tx, p2.tx, a, b);
                                },
                                _ => {},
                            }
                        },
                        _ => {},
                    }
                },
                _ => {},
            }
        },
        (WhereClause::TypeReq(v1, _), WhereClause::TypeReq(v2, _)) => {
            lemma_find_var_rename(m1.vars, m2.vars, v1, v2, a, b);
        },
        (WhereClause::Ground(_, v1), WhereClause::Ground(_, v2)) => {
            lemma_bind_var_rename(m1, m2, v1, v2, a, b);
        },
        (WhereClause::Pred(op, as1), WhereClause::Pred(_, as2)) => {
            if as1@.len() == 2 {
                assert(renamed_arg(as1@[0], as2@[0], a, b));
                assert(renamed_arg(as1@[1], as2@[1], a, b));
                lemma_pred_arg_rename(
                    m1,
                    m2,
                    as1@[0],
                    as2@[0],
                    0,
                    crate::algebrize::spec_pred_compares(op),
                    a,
                    b,
                );
                match (step_pred_arg(m1, as1@[0], 0, crate::algebrize::spec_pred_compares(op)),
                step_pred_arg(m2, as2@[0], 0, crate::algebrize::spec_pred_compares(op))) {
                    (ArgOut::ArgGo(n1, _), ArgOut::ArgGo(n2, _)) => {
                        lemma_pred_arg_rename(
                            n1,
                            n2,
                            as1@[1],
                            as2@[1],
                            1,
                            crate::algebrize::spec_pred_compares(op),
                            a,
                            b,
                        );
                    },
                    _ => {},
                }
            }
        },
        (WhereClause::Fulltext(_, s1, b1), WhereClause::Fulltext(_, s2, b2)) => {
            lemma_search_term_rename(m1, m2, s1, s2, a, b);
            match (step_search_term(m1, s1), step_search_term(m2, s2)) {
                (ValueOut::VGo(n1, _), ValueOut::VGo(n2, _)) => {
                    let se = crate::values::ValueTypeSet::spec_one(
                        crate::values::ValueType::Ref,
                    );
                    let sv = crate::values::ValueTypeSet::spec_one(
                        crate::values::ValueType::String,
                    );
                    let sd = crate::values::ValueTypeSet::spec_one(
                        crate::values::ValueType::Double,
                    );
                    lemma_bind_opt_rename(n1, n2, b1.entity, b2.entity, se, a, b);
                    let o1 = spec_bind_opt(n1, b1.entity, se).0;
                    let o2 = spec_bind_opt(n2, b2.entity, se).0;
                    lemma_bind_opt_rename(o1, o2, b1.value, b2.value, sv, a, b);
                    let q1 = spec_bind_opt(o1, b1.value, sv).0;
                    let q2 = spec_bind_opt(o2, b2.value, sv).0;
                    lemma_bind_opt_rename(q1, q2, b1.tx, b2.tx, se, a, b);
                    let r1 = spec_bind_opt(q1, b1.tx, se).0;
                    let r2 = spec_bind_opt(q2, b2.tx, se).0;
                    lemma_bind_opt_rename(r1, r2, b1.score, b2.score, sd, a, b);
                },
                _ => {},
            }
        },
        (WhereClause::TxIds(x1, y1, v1), WhereClause::TxIds(x2, y2, v2)) => {
            lemma_pred_arg_rename(m1, m2, x1, x2, 1, true, a, b);
            match (step_pred_arg(m1, x1, 1, true), step_pred_arg(m2, x2, 1, true)) {
                (ArgOut::ArgGo(n1, _), ArgOut::ArgGo(n2, _)) => {
                    lemma_pred_arg_rename(n1, n2, y1, y2, 2, true, a, b);
                    match (step_pred_arg(n1, y1, 2, true), step_pred_arg(n2, y2, 2, true)) {
                        (ArgOut::ArgGo(o1, _), ArgOut::ArgGo(o2, _)) => {
                            lemma_bind_var_rename(o1, o2, v1, v2, a, b);
                        },
                        _ => {},
                    }
                },
                _ => {},
            }
        },
        (WhereClause::TxData(x1, bs1), WhereClause::TxData(x2, bs2)) => {
            if bs1@.len() == 5 {
                lemma_pred_arg_rename(m1, m2, x1, x2, 1, true, a, b);
                match (step_pred_arg(m1, x1, 1, true), step_pred_arg(m2, x2, 1, true)) {
                    (ArgOut::ArgGo(n1, _), ArgOut::ArgGo(n2, _)) => {
                        let se = crate::values::ValueTypeSet::spec_one(
                            crate::values::ValueType::Ref,
                        );
                        let sany = crate::values::ValueTypeSet::spec_any();
                        let sb = crate::values::ValueTypeSet::spec_one(
                            crate::values::ValueType::Boolean,
                        );
                        assert(renamed_opt(bs1@[0], bs2@[0], a, b));
                        assert(renamed_opt(bs1@[1], bs2@[1], a, b));
                        assert(renamed_opt(bs1@[2], bs2@[2], a, b));
                        assert(renamed_opt(bs1@[3], bs2@[3], a, b));
                        assert(renamed_opt(bs1@[4], bs2@[4], a, b));
                        lemma_bind_opt_rename(n1, n2, bs1@[0], bs2@[0], se, a, b);
                        let o1 = spec_bind_opt(n1, bs1@[0], se).0;
                        let o2 = spec_bind_opt(n2, bs2@[0], se).0;
                        lemma_bind_opt_rename(o1, o2, bs1@[1], bs2@[1], se, a, b);
                        let p1 = spec_bind_opt(o1, bs1@[1], se).0;
                        let p2 = spec_bind_opt(o2, bs2@[1], se).0;
                        lemma_bind_opt_rename(p1, p2, bs1@[2], bs2@[2], sany, a, b);
                        let q1 = spec_bind_opt(p1, bs1@[2], sany).0;
                        let q2 = spec_bind_opt(p2, bs2@[2], sany).0;
                        lemma_bind_opt_rename(q1, q2, bs1@[3], bs2@[3], se, a, b);
                        let r1 = spec_bind_opt(q1, bs1@[3], se).0;
                        let r2 = spec_bind_opt(q2, bs2@[3], se).0;
                        lemma_bind_opt_rename(r1, r2, bs1@[4], bs2@[4], sb, a, b);
                    },
                    _ => {},
                }
            }
        },
        _ => {},
    }
}

/// The whole walk over `:where` resolves alike under the renaming.
proof fn lemma_fold_clauses_rename(
    idents: Seq<(Keyword, i64)>,
    attrs: Seq<(i64, Attribute)>,
    m1: CcModel,
    m2: CcModel,
    cs1: Seq<WhereClause>,
    cs2: Seq<WhereClause>,
    a: Seq<char>,
    b: Seq<char>,
)
    requires
        rel_model(m1, m2, a, b),
        renamed_clauses(cs1, cs2, a, b),
        a != b,
    ensures
        rel_clause_out(
            fold_clauses(idents, attrs, m1, cs1),
            fold_clauses(idents, attrs, m2, cs2),
            a,
            b,
        ),
    decreases cs1.len(),
{
    if cs1.len() > 0 {
        assert(renamed_clause(cs1[0], cs2[0], a, b));
        lemma_step_clause_rename(idents, attrs, m1, m2, cs1[0], cs2[0], a, b);
        match (step_clause(idents, attrs, m1, cs1[0]), step_clause(idents, attrs, m2, cs2[0])) {
            (ClauseOut::CGo(n1), ClauseOut::CGo(n2)) => {
                assert(forall|i: int|
                    0 <= i < cs1.drop_first().len() ==> #[trigger] cs1.drop_first()[i] == cs1[i
                        + 1]);
                assert(forall|i: int|
                    0 <= i < cs2.drop_first().len() ==> #[trigger] cs2.drop_first()[i] == cs2[i
                        + 1]);
                assert(renamed_clauses(cs1.drop_first(), cs2.drop_first(), a, b));
                lemma_fold_clauses_rename(
                    idents,
                    attrs,
                    n1,
                    n2,
                    cs1.drop_first(),
                    cs2.drop_first(),
                    a,
                    b,
                );
            },
            _ => {},
        }
    }
}

/// Related element-check outcomes.
pub open spec fn rel_check(
    o1: Option<AlgFailure>,
    o2: Option<AlgFailure>,
    a: Seq<char>,
    b: Seq<char>,
) -> bool {
    match (o1, o2) {
        (None, None) => true,
        (Some(f1), Some(f2)) => renamed_failure(f1, f2, a, b),
        _ => false,
    }
}

/// One find element checks alike under the renaming.
proof fn lemma_check_element_rename(
    m1: CcModel,
    m2: CcModel,
    e1: Element,
    e2: Element,
    pos: int,
    a: Seq<char>,
    b: Seq<char>,
)
    requires
        rel_model(m1, m2, a, b),
        renamed_element(e1, e2, a, b),
        a != b,
    ensures
        rel_check(check_element(m1, e1, pos), check_element(m2, e2, pos), a, b),
{
    match (e1, e2) {
        (Element::Variable(v1), Element::Variable(v2)) => {
            lemma_find_var_rename(m1.vars, m2.vars, v1, v2, a, b);
        },
        (Element::Aggregate(_, v1), Element::Aggregate(_, v2)) => {
            lemma_find_var_rename(m1.vars, m2.vars, v1, v2, a, b);
        },
        _ => {},
    }
}

/// The find elements check alike under the renaming.
proof fn lemma_check_elements_rename(
    m1: CcModel,
    m2: CcModel,
    es1: Seq<Element>,
    es2: Seq<Element>,
    pos: int,
    a: Seq<char>,
    b: Seq<char>,
)
    requires
        rel_model(m1, m2, a, b),
        renamed_elements(es1, es2, a, b),
        a != b,
    ensures
        rel_check(check_elements(m1, es1, pos), check_elements(m2, es2, pos), a, b),
    decreases es1.len(),
{
    if es1.len() > 0 {
        assert(renamed_element(es1[0], es2[0], a, b));
        lemma_check_element_rename(m1, m2, es1[0], es2[0], pos, a, b);
        assert(forall|i: int|
            0 <= i < es1.drop_first().len() ==> #[trigger] es1.drop_first()[i] == es1[i + 1]);
        assert(forall|i: int|
            0 <= i < es2.drop_first().len() ==> #[trigger] es2.drop_first()[i] == es2[i + 1]);
        assert(renamed_elements(es1.drop_first(), es2.drop_first(), a, b));
        lemma_check_elements_rename(m1, m2, es1.drop_first(), es2.drop_first(), pos + 1, a, b);
    }
}

/// Renamed elements carry the same aggregates.
proof fn lemma_counts_rename(es1: Seq<Element>, es2: Seq<Element>, a: Seq<char>, b: Seq<char>)
    requires
        renamed_elements(es1, es2, a, b),
    ensures
        count_min_max(es1) == count_min_max(es2),
        count_the(es1) == count_the(es2),
    decreases es1.len(),
{
    if es1.len() > 0 {
        assert(renamed_element(es1[0], es2[0], a, b));
        assert(forall|i: int|
            0 <= i < es1.drop_first().len() ==> #[trigger] es1.drop_first()[i] == es1[i + 1]);
        assert(forall|i: int|
            0 <= i < es2.drop_first().len() ==> #[trigger] es2.drop_first()[i] == es2[i + 1]);
        assert(renamed_elements(es1.drop_first(), es2.drop_first(), a, b));
        lemma_counts_rename(es1.drop_first(), es2.drop_first(), a, b);
    }
}

/// The grouping variables check alike under the renaming.
proof fn lemma_check_with_rename(
    m1: CcModel,
    m2: CcModel,
    ws1: Seq<String>,
    ws2: Seq<String>,
    pos: int,
    a: Seq<char>,
    b: Seq<char>,
)
    requires
        rel_model(m1, m2, a, b),
        renamed_vars(ws1, ws2, a, b),
        a != b,
    ensures
        rel_check(check_with(m1, ws1, pos), check_with(m2, ws2, pos), a, b),
    decreases ws1.len(),
{
    if ws1.len() > 0 {
        assert(renamed_str(ws1[0], ws2[0], a, b));
        lemma_find_var_rename(m1.vars, m2.vars, ws1[0], ws2[0], a, b);
        assert(forall|i: int|
            0 <= i < ws1.drop_first().len() ==> #[trigger] ws1.drop_first()[i] == ws1[i + 1]);
        assert(forall|i: int|
            0 <= i < ws2.drop_first().len() ==> #[trigger] ws2.drop_first()[i] == ws2[i + 1]);
        assert(renamed_vars(ws1.drop_first(), ws2.drop_first(), a, b));
        lemma_check_with_rename(m1, m2, ws1.drop_first(), ws2.drop_first(), pos + 1, a, b);
    }
}

/// Projection membership survives the renaming.
proof fn lemma_project_var_rename(
    es1: Seq<Element>,
    es2: Seq<Element>,
    v1: String,
    v2: String,
    a: Seq<char>,
    b: Seq<char>,
)
    requires
        renamed_elements(es1, es2, a, b),
        renamed_str(v1, v2, a, b),
        a != b,
    ensures
        elements_project_var(es2, v2) == elements_project_var(es1, v1),
    decreases es1.len(),
{
    if es1.len() > 0 {
        assert(renamed_element(es1[0], es2[0], a, b));
        match (es1[0], es2[0]) {
            (Element::Variable(w1), Element::Variable(w2)) => {
                lemma_rn_injective(w1@, w2@, v1@, v2@, a, b);
            },
            _ => {},
        }
        assert(forall|i: int|
            0 <= i < es1.drop_first().len() ==> #[trigger] es1.drop_first()[i] == es1[i + 1]);
        assert(forall|i: int|
            0 <= i < es2.drop_first().len() ==> #[trigger] es2.drop_first()[i] == es2[i + 1]);
        assert(renamed_elements(es1.drop_first(), es2.drop_first(), a, b));
        lemma_project_var_rename(es1.drop_first(), es2.drop_first(), v1, v2, a, b);
    }
}

/// The renaming is injective away from the fresh name.
proof fn lemma_rn_injective(x1: Seq<char>, x2: Seq<char>, y1: Seq<char>, y2: Seq<char>, a: Seq<
    char,
>, b: Seq<char>)
    requires
        x2 == rn(x1, a, b),
        y2 == rn(y1, a, b),
        x1 != b,
        y1 != b,
        a != b,
    ensures
        (x2 == y2) == (x1 == y1),
{
}

/// List membership survives the renaming.
proof fn lemma_vars_contain_rename(
    ws1: Seq<String>,
    ws2: Seq<String>,
    v1: String,
    v2: String,
    a: Seq<char>,
    b: Seq<char>,
)
    requires
        renamed_vars(ws1, ws2, a, b),
        renamed_str(v1, v2, a, b),
        a != b,
    ensures
        vars_contain(ws2, v2) == vars_contain(ws1, v1),
    decreases ws1.len(),
{
    if ws1.len() > 0 {
        assert(renamed_str(ws1[0], ws2[0], a, b));
        lemma_rn_injective(ws1[0]@, ws2[0]@, v1@, v2@, a, b);
        assert(forall|i: int|
            0 <= i < ws1.drop_first().len() ==> #[trigger] ws1.drop_first()[i] == ws1[i + 1]);
        assert(forall|i: int|
            0 <= i < ws2.drop_first().len() ==> #[trigger] ws2.drop_first()[i] == ws2[i + 1]);
        assert(renamed_vars(ws1.drop_first(), ws2.drop_first(), a, b));
        lemma_vars_contain_rename(ws1.drop_first(), ws2.drop_first(), v1, v2, a, b);
    }
}

/// The orderings check alike under the renaming.
proof fn lemma_check_order_rename(
    es1: Seq<Element>,
    es2: Seq<Element>,
    ws1: Seq<String>,
    ws2: Seq<String>,
    os1: Seq<OrderBy>,
    os2: Seq<OrderBy>,
    pos: int,
    a: Seq<char>,
    b: Seq<char>,
)
    requires
        renamed_elements(es1, es2, a, b),
        renamed_vars(ws1, ws2, a, b),
        renamed_order(os1, os2, a, b),
        a != b,
    ensures
        rel_check(
            check_order(es1, ws1, os1, pos),
            check_order(es2, ws2, os2, pos),
            a,
            b,
        ),
    decreases os1.len(),
{
    if os1.len() > 0 {
        assert(os1[0].0 == os2[0].0 && renamed_str(os1[0].1, os2[0].1, a, b));
        lemma_project_var_rename(es1, es2, os1[0].1, os2[0].1, a, b);
        lemma_vars_contain_rename(ws1, ws2, os1[0].1, os2[0].1, a, b);
        assert(forall|i: int|
            0 <= i < os1.drop_first().len() ==> #[trigger] os1.drop_first()[i] == os1[i + 1]);
        assert(forall|i: int|
            0 <= i < os2.drop_first().len() ==> #[trigger] os2.drop_first()[i] == os2[i + 1]);
        assert(renamed_order(os1.drop_first(), os2.drop_first(), a, b));
        lemma_check_order_rename(
            es1,
            es2,
            ws1,
            ws2,
            os1.drop_first(),
            os2.drop_first(),
            pos + 1,
            a,
            b,
        );
    }
}

/// Renamed find specifications expose renamed element lists.
proof fn lemma_find_elements_rename(f1: FindSpec, f2: FindSpec, a: Seq<char>, b: Seq<char>)
    requires
        renamed_find(f1, f2, a, b),
    ensures
        renamed_elements(find_elements(f1), find_elements(f2), a, b),
{
    match (f1, f2) {
        (FindSpec::FindColl(e1), FindSpec::FindColl(e2)) => {
            assert(find_elements(f1) =~= seq![e1]);
            assert(find_elements(f2) =~= seq![e2]);
        },
        (FindSpec::FindScalar(e1), FindSpec::FindScalar(e2)) => {
            assert(find_elements(f1) =~= seq![e1]);
            assert(find_elements(f2) =~= seq![e2]);
        },
        _ => {},
    }
}

/// Replacing a variable name by a fresh one does not change the plan:
/// two queries alike but for a renaming of one variable — the fresh
/// name occurring nowhere in the original — algebrize to the same
/// name-free plan: the same resolved clauses, the same per-column type
/// sets, and the same provable emptiness. In particular an aggregate
/// query without `:with` keeps its result, which reads nothing but
/// that plan.
pub proof fn lemma_alpha_equivalence(
    idents: Seq<(Keyword, i64)>,
    attrs: Seq<(i64, Attribute)>,
    f1: FindSpec,
    f2: FindSpec,
    ws1: Seq<String>,
    ws2: Seq<String>,
    cs1: Seq<WhereClause>,
    cs2: Seq<WhereClause>,
    os1: Seq<OrderBy>,
    os2: Seq<OrderBy>,
    a: Seq<char>,
    b: Seq<char>,
)
    requires
        renamed_find(f1, f2, a, b),
        renamed_vars(ws1, ws2, a, b),
        renamed_clauses(cs1, cs2, a, b),
        renamed_order(os1, os2, a, b),
        a != b,
    ensures
        match (algebrize_model(idents, attrs, f1, ws1, cs1, os1), algebrize_model(
            idents,
            attrs,
            f2,
            ws2,
            cs2,
            os2,
        )) {
            (QueryOut::QGo(m1, e1), QueryOut::QGo(m2, e2)) => m1.types == m2.types && m1.clauses
                == m2.clauses && e1 == e2 && renamed_vars(m1.vars, m2.vars, a, b),
            (QueryOut::QFail(x1), QueryOut::QFail(x2)) => renamed_failure(x1, x2, a, b),
            _ => false,
        },
{
    let m0 = CcModel { vars: Seq::empty(), types: Seq::empty(), clauses: Seq::empty() };
    assert(rel_model(m0, m0, a, b));
    lemma_fold_clauses_rename(idents, attrs, m0, m0, cs1, cs2, a, b);
    match (fold_clauses(idents, attrs, m0, cs1), fold_clauses(idents, attrs, m0, cs2)) {
        (ClauseOut::CGo(m1), ClauseOut::CGo(m2)) => {
            lemma_find_elements_rename(f1, f2, a, b);
            let es1 = find_elements(f1);
            let es2 = find_elements(f2);
            lemma_check_elements_rename(m1, m2, es1, es2, 0, a, b);
            lemma_counts_rename(es1, es2, a, b);
            lemma_check_with_rename(m1, m2, ws1, ws2, 0, a, b);
            lemma_check_order_rename(es1, es2, ws1, ws2, os1, os2, 0, a, b);
        },
        _ => {},
    }
}

/// Column resolution of the projection is renaming-invariant.
proof fn lemma_cols_fold_rename(
    v1: Seq<String>,
    v2: Seq<String>,
    es1: Seq<Element>,
    es2: Seq<Element>,
    j: int,
    cols: Seq<usize>,
    kps: Seq<usize>,
    has_agg: bool,
    a: Seq<char>,
    b: Seq<char>,
)
    requires
        renamed_vars(v1, v2, a, b),
        renamed_elements(es1, es2, a, b),
        a != b,
    ensures
        crate::projector::spec_cols_fold(v2, es2, j, cols, kps, has_agg)
            == crate::projector::spec_cols_fold(v1, es1, j, cols, kps, has_agg),
    decreases es1.len() - j,
{
    if 0 <= j < es1.len() {
        assert(renamed_element(es1[j], es2[j], a, b));
        match (es1[j], es2[j]) {
            (Element::Variable(x1), Element::Variable(x2)) => {
                lemma_find_var_rename(v1, v2, x1, x2, a, b);
                match find_var(v1, x1) {
                    Some(c) => {
                        lemma_cols_fold_rename(
                            v1,
                            v2,
                            es1,
                            es2,
                            j + 1,
                            cols.push(c as usize),
                            kps.push(j as usize),
                            has_agg,
                            a,
                            b,
                        );
                    },
                    None => {},
                }
            },
            (Element::Aggregate(_, x1), Element::Aggregate(_, x2)) => {
                lemma_find_var_rename(v1, v2, x1, x2, a, b);
                match find_var(v1, x1) {
                    Some(c) => {
                        lemma_cols_fold_rename(
                            v1,
                            v2,
                            es1,
                            es2,
                            j + 1,
                            cols.push(c as usize),
                            kps,
                            true,
                            a,
                            b,
                        );
                    },
                    None => {},
                }
            },
            _ => {},
        }
    }
}

/// The `:with` columns are renaming-invariant.
proof fn lemma_with_fold_rename(
    v1: Seq<String>,
    v2: Seq<String>,
    ws1: Seq<String>,
    ws2: Seq<String>,
    k: int,
    cols: Seq<usize>,
    a: Seq<char>,
    b: Seq<char>,
)
    requires
        renamed_vars(v1, v2, a, b),
        renamed_vars(ws1, ws2, a, b),
        a != b,
    ensures
        crate::projector::spec_with_fold(v2, ws2, k, cols) == crate::projector::spec_with_fold(
            v1,
            ws1,
            k,
            cols,
        ),
    decreases ws1.len() - k,
{
    if 0 <= k < ws1.len() {
        assert(renamed_str(ws1[k], ws2[k], a, b));
        lemma_find_var_rename(v1, v2, ws1[k], ws2[k], a, b);
        match find_var(v1, ws1[k]) {
            Some(c) => {
                lemma_with_fold_rename(v1, v2, ws1, ws2, k + 1, cols.push(c as usize), a, b);
            },
            None => {},
        }
    }
}

/// The output column of an ordered variable is renaming-invariant.
proof fn lemma_order_col_rename(
    es1: Seq<Element>,
    es2: Seq<Element>,
    x1: String,
    x2: String,
    a: Seq<char>,
    b: Seq<char>,
)
    requires
        renamed_elements(es1, es2, a, b),
        renamed_str(x1, x2, a, b),
        a != b,
    ensures
        crate::projector::spec_order_col(es2, x2) == crate::projector::spec_order_col(es1, x1),
    decreases es1.len(),
{
    if es1.len() > 0 {
        assert(renamed_element(es1[0], es2[0], a, b));
        let n1 = match es1[0] {
            Element::Variable(w) => w,
            Element::Aggregate(_, w) => w,
        };
        let n2 = match es2[0] {
            Element::Variable(w) => w,
            Element::Aggregate(_, w) => w,
        };
        lemma_rn_injective(n1@, n2@, x1@, x2@, a, b);
        if n1@ != x1@ {
            assert(forall|i: int|
                0 <= i < es1.drop_first().len() ==> #[trigger] es1.drop_first()[i] == es1[i + 1]);
            assert(forall|i: int|
                0 <= i < es2.drop_first().len() ==> #[trigger] es2.drop_first()[i] == es2[i + 1]);
            assert(renamed_elements(es1.drop_first(), es2.drop_first(), a, b));
            lemma_order_col_rename(es1.drop_first(), es2.drop_first(), x1, x2, a, b);
        }
    }
}

/// The resolved orderings are renaming-invariant.
proof fn lemma_resolve_ocols_rename(
    es1: Seq<Element>,
    es2: Seq<Element>,
    os1: Seq<OrderBy>,
    os2: Seq<OrderBy>,
    k: int,
    acc: Seq<(usize, bool)>,
    a: Seq<char>,
    b: Seq<char>,
)
    requires
        renamed_elements(es1, es2, a, b),
        renamed_order(os1, os2, a, b),
        a != b,
    ensures
        crate::projector::spec_resolve_ocols(es2, os2, k, acc)
            == crate::projector::spec_resolve_ocols(es1, os1, k, acc),
    decreases os1.len() - k,
{
    if 0 <= k < os1.len() {
        assert(os1[k].0 == os2[k].0 && renamed_str(os1[k].1, os2[k].1, a, b));
        lemma_order_col_rename(es1, es2, os1[k].1, os2[k].1, a, b);
        match crate::projector::spec_order_col(es1, os1[k].1) {
            Some(c) => {
                lemma_resolve_ocols_rename(
                    es1,
                    es2,
                    os1,
                    os2,
                    k + 1,
                    acc.push(
                        (c as usize, os1[k].0 == crate::query::Direction::Descending),
                    ),
                    a,
                    b,
                );
            },
            None => {},
        }
    }
}

/// Seeding from inputs that name neither the renamed variable nor the
/// fresh one is renaming-invariant.
proof fn lemma_seed_fold_rename(
    v1: Seq<String>,
    v2: Seq<String>,
    types: Seq<crate::values::ValueTypeSet>,
    row: Seq<Option<crate::values::Value>>,
    inputs: Seq<(String, crate::values::TypedValue)>,
    k: int,
    a: Seq<char>,
    b: Seq<char>,
)
    requires
        renamed_vars(v1, v2, a, b),
        forall|i: int|
            0 <= i < inputs.len() ==> (#[trigger] inputs[i]).0@ != a && inputs[i].0@ != b,
        a != b,
    ensures
        crate::projector::spec_seed_fold(v2, types, row, inputs, k)
            == crate::projector::spec_seed_fold(v1, types, row, inputs, k),
    decreases inputs.len() - k,
{
    if 0 <= k < inputs.len() {
        assert(renamed_str(inputs[k].0, inputs[k].0, a, b));
        lemma_find_var_rename(v1, v2, inputs[k].0, inputs[k].0, a, b);
        match find_var(v1, inputs[k].0) {
            None => {
                lemma_seed_fold_rename(v1, v2, types, row, inputs, k + 1, a, b);
            },
            Some(c) => {
                if !(c < types.len() && !types[c].spec_contains(
                    crate::values::spec_value_type_of(inputs[k].1@),
                )) {
                    let row2 = if c < row.len() {
                        row.update(c, Some(inputs[k].1@))
                    } else {
                        row
                    };
                    lemma_seed_fold_rename(v1, v2, types, row2, inputs, k + 1, a, b);
                }
            },
        }
    }
}

/// The `the`-target is renaming-invariant: it reads operators only.
proof fn lemma_extreme_target_rename(es1: Seq<Element>, es2: Seq<Element>, a: Seq<char>, b: Seq<
    char,
>)
    requires
        renamed_elements(es1, es2, a, b),
    ensures
        crate::projector::spec_extreme_target(es2) == crate::projector::spec_extreme_target(es1),
    decreases es1.len(),
{
    if es1.len() > 0 {
        assert(renamed_element(es1[0], es2[0], a, b));
        assert(forall|i: int|
            0 <= i < es1.drop_first().len() ==> #[trigger] es1.drop_first()[i] == es1[i + 1]);
        assert(forall|i: int|
            0 <= i < es2.drop_first().len() ==> #[trigger] es2.drop_first()[i] == es2[i + 1]);
        assert(renamed_elements(es1.drop_first(), es2.drop_first(), a, b));
        lemma_extreme_target_rename(es1.drop_first(), es2.drop_first(), a, b);
    }
}

/// One output row is renaming-invariant: it reads operators and
/// positions only.
proof fn lemma_output_row_rename(
    es1: Seq<Element>,
    es2: Seq<Element>,
    g: Seq<Seq<crate::values::Value>>,
    ex: int,
    j: int,
    a: Seq<char>,
    b: Seq<char>,
)
    requires
        renamed_elements(es1, es2, a, b),
    ensures
        crate::projector::spec_output_row(es2, g, ex, j) == crate::projector::spec_output_row(
            es1,
            g,
            ex,
            j,
        ),
    decreases es1.len() - j,
{
    if 0 <= j < es1.len() {
        assert(renamed_element(es1[j], es2[j], a, b));
        lemma_output_row_rename(es1, es2, g, ex, j + 1, a, b);
    }
}

/// The output rows of all groups are renaming-invariant.
proof fn lemma_outputs_rename(
    es1: Seq<Element>,
    es2: Seq<Element>,
    groups: Seq<Seq<Seq<crate::values::Value>>>,
    a: Seq<char>,
    b: Seq<char>,
)
    requires
        renamed_elements(es1, es2, a, b),
    ensures
        crate::projector::spec_outputs(es2, groups) == crate::projector::spec_outputs(
            es1,
            groups,
        ),
    decreases groups.len(),
{
    if groups.len() > 0 {
        lemma_extreme_target_rename(es1, es2, a, b);
        let ex = crate::projector::spec_extreme_member(es1, groups[0]);
        assert(crate::projector::spec_extreme_member(es2, groups[0]) == ex);
        lemma_output_row_rename(es1, es2, groups[0], ex, 0, a, b);
        lemma_outputs_rename(es1, es2, groups.drop_first(), a, b);
    }
}

/// Whether every element is a plain count is renaming-invariant.
proof fn lemma_all_counts_rename(
    es1: Seq<Element>,
    es2: Seq<Element>,
    j: int,
    a: Seq<char>,
    b: Seq<char>,
)
    requires
        renamed_elements(es1, es2, a, b),
    ensures
        crate::projector::spec_all_counts(es2, j) == crate::projector::spec_all_counts(es1, j),
    decreases es1.len() - j,
{
    if 0 <= j < es1.len() {
        assert(renamed_element(es1[j], es2[j], a, b));
        lemma_all_counts_rename(es1, es2, j + 1, a, b);
    }
}

/// The whole projection is renaming-invariant over related variable
/// lists: columns, grouping, aggregation and truncation all resolve
/// alike.
proof fn lemma_project_rows_rename(
    v1: Seq<String>,
    v2: Seq<String>,
    es1: Seq<Element>,
    es2: Seq<Element>,
    ws1: Seq<String>,
    ws2: Seq<String>,
    rows: Seq<Seq<Option<crate::values::Value>>>,
    a: Seq<char>,
    b: Seq<char>,
)
    requires
        renamed_vars(v1, v2, a, b),
        renamed_elements(es1, es2, a, b),
        renamed_vars(ws1, ws2, a, b),
        a != b,
    ensures
        crate::projector::spec_project_rows(v2, es2, ws2, rows)
            == crate::projector::spec_project_rows(v1, es1, ws1, rows),
{
    lemma_cols_fold_rename(v1, v2, es1, es2, 0, Seq::empty(), Seq::empty(), false, a, b);
    match crate::projector::spec_cols_fold(v1, es1, 0, Seq::empty(), Seq::empty(), false) {
        None => {},
        Some((ecols, kps, has_agg)) => {
            lemma_with_fold_rename(v1, v2, ws1, ws2, 0, ecols, a, b);
            match crate::projector::spec_with_fold(v1, ws1, 0, ecols) {
                None => {},
                Some(cols) => {
                    let dis = crate::projector::spec_distinct_acc(
                        Seq::empty(),
                        crate::projector::spec_projected(rows, cols),
                    );
                    if !has_agg {
                    } else {
                        let (keys, groups) = crate::projector::spec_group(
                            dis,
                            kps,
                            Seq::empty(),
                            Seq::empty(),
                        );
                        if groups.len() == 0 {
                            lemma_all_counts_rename(es1, es2, 0, a, b);
                            assert(crate::projector::spec_zero_row(es2)
                                =~= crate::projector::spec_zero_row(es1));
                        } else {
                            lemma_outputs_rename(es1, es2, groups, a, b);
                        }
                    }
                },
            }
        },
    }
}

/// Replacing a variable name by a fresh one does not change the
/// result: two queries alike but for the renaming — the fresh name
/// occurring nowhere in the original, and neither name among the
/// supplied inputs — either fail together or algebrize to plans whose
/// evaluation against any datoms returns the same value. `q_once` pins
/// the returned value to exactly that evaluation, so an aggregate query
/// keeps its result under the renaming.
pub proof fn lemma_alpha_equivalent_results(
    datoms: Seq<crate::store::Datom>,
    idents: Seq<(Keyword, i64)>,
    attrs: Seq<(i64, Attribute)>,
    f1: FindSpec,
    f2: FindSpec,
    ws1: Seq<String>,
    ws2: Seq<String>,
    cs1: Seq<WhereClause>,
    cs2: Seq<WhereClause>,
    os1: Seq<OrderBy>,
    os2: Seq<OrderBy>,
    inputs: Seq<(String, crate::values::TypedValue)>,
    a: Seq<char>,
    b: Seq<char>,
)
    requires
        renamed_find(f1, f2, a, b),
        renamed_vars(ws1, ws2, a, b),
        renamed_clauses(cs1, cs2, a, b),
        renamed_order(os1, os2, a, b),
        forall|i: int|
            0 <= i < inputs.len() ==> (#[trigger] inputs[i]).0@ != a && inputs[i].0@ != b,
        a != b,
    ensures
        match (algebrize_model(idents, attrs, f1, ws1, cs1, os1), algebrize_model(
            idents,
            attrs,
            f2,
            ws2,
            cs2,
            os2,
        )) {
            (QueryOut::QGo(m1, e1), QueryOut::QGo(m2, e2)) => e1 == e2
                && crate::projector::spec_query_results(datoms, m2, f2, ws2, os2, inputs)
                == crate::projector::spec_query_results(datoms, m1, f1, ws1, os1, inputs),
            (QueryOut::QFail(x1), QueryOut::QFail(x2)) => renamed_failure(x1, x2, a, b),
            _ => false,
        },
{
    lemma_alpha_equivalence(idents, attrs, f1, f2, ws1, ws2, cs1, cs2, os1, os2, a, b);
    match (algebrize_model(idents, attrs, f1, ws1, cs1, os1), algebrize_model(
        idents,
        attrs,
        f2,
        ws2,
        cs2,
        os2,
    )) {
        (QueryOut::QGo(m1, _), QueryOut::QGo(m2, _)) => {
            let row0 = Seq::new(m1.vars.len(), |i: int| None::<crate::values::Value>);
            assert(Seq::new(m2.vars.len(), |i: int| None::<crate::values::Value>) =~= row0);
            lemma_seed_fold_rename(m1.vars, m2.vars, m1.types, row0, inputs, 0, a, b);
            match crate::projector::spec_seed(m1.vars, m1.types, inputs) {
                None => {},
                Some(start) => {
                    lemma_find_elements_rename(f1, f2, a, b);
                    let es1 = find_elements(f1);
                    let es2 = find_elements(f2);
                    match crate::projector::spec_eval_clauses(datoms, m1.clauses, seq![start]) {
                        None => {},
                        Some(rows) => {
                            let rows2 = crate::projector::spec_filter_types(m1.types, rows);
                            lemma_resolve_ocols_rename(es1, es2, os1, os2, 0, Seq::empty(), a, b);
                            lemma_project_rows_rename(
                                m1.vars,
                                m2.vars,
                                es1,
                                es2,
                                ws1,
                                ws2,
                                rows2,
                                a,
                                b,
                            );
                        },
                    }
                },
            }
        },
        _ => {},
    }
}

} // verus!
