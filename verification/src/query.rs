//! The parsed query form: find specifications, where-clause forms,
//! inputs, grouping variables and orderings, as the external query parser
//! hands them over to the algebrizer.

use vstd::prelude::*;
use crate::values::{Keyword, TypedValue, ValueType};

verus! {

/// An aggregation operator of a `:find` element.
#[derive(Clone, Copy, Debug, PartialEq, Eq, Structural, Hash)]
pub enum AggregateOp {
    Count,
    CountDistinct,
    Sum,
    Min,
    Max,
    Avg,
    The,
}

/// One element of a `:find` list: a projected variable or an aggregate
/// over one.
#[derive(Clone, Debug, PartialEq, Eq)]
pub enum Element {
    Variable(String),
    Aggregate(AggregateOp, String),
}

/// The shape of a query's result, determined by the syntax of `:find`:
/// many rows of tuples, one tuple, many single values, or one value.
#[derive(Clone, Debug, PartialEq, Eq)]
pub enum FindSpec {
    FindRel(Vec<Element>),
    FindColl(Element),
    FindTuple(Vec<Element>),
    FindScalar(Element),
}

/// An entity, attribute or tx position of a pattern: a wildcard, a
/// variable, a literal entid, or a keyword to resolve through the
/// registry.
#[derive(Clone, Debug, PartialEq, Eq)]
pub enum PatternNonValuePlace {
    Placeholder,
    Variable(String),
    Entid(i64),
    Ident(Keyword),
}

/// The value position of a pattern. An integer literal may denote a
/// `Long` or a `Ref`; a keyword literal may denote a `Keyword` value or
/// an ident; other constants carry their type on their sleeve.
#[derive(Clone, Debug, PartialEq, Eq)]
pub enum PatternValuePlace {
    Placeholder,
    Variable(String),
    EntidOrInteger(i64),
    IdentOrKeyword(Keyword),
    Constant(TypedValue),
}

/// A `[E A V T]` pattern clause.
#[derive(Clone, Debug, PartialEq, Eq)]
pub struct Pattern {
    pub entity: PatternNonValuePlace,
    pub attribute: PatternNonValuePlace,
    pub value: PatternValuePlace,
    pub tx: PatternNonValuePlace,
}

/// An admitted predicate.
#[derive(Clone, Copy, Debug, PartialEq, Eq, Structural, Hash)]
pub enum PredicateOp {
    Lt,
    Le,
    Gt,
    Ge,
    Eq,
    NotEq,
    Differ,
    Unpermute,
}

/// An argument of a predicate or helper clause.
#[derive(Clone, Debug, PartialEq, Eq)]
pub enum FnArg {
    Variable(String),
    EntidOrInteger(i64),
    Constant(TypedValue),
}

/// The variables a fulltext clause binds, in order: entity, value, tx,
/// score; `None` is the wildcard.
#[derive(Clone, Debug, PartialEq, Eq)]
pub struct FulltextBinding {
    pub entity: Option<String>,
    pub value: Option<String>,
    pub tx: Option<String>,
    pub score: Option<String>,
}

/// A clause of `:where`.
#[derive(Clone, Debug, PartialEq, Eq)]
pub enum WhereClause {
    /// `[E A V T]`.
    Pattern(Pattern),
    /// `[(op arg ...)]`.
    Pred(PredicateOp, Vec<FnArg>),
    /// `[(type ?v :db.type/T)]`.
    TypeReq(String, ValueType),
    /// `[(ground <literal>) ?v]`.
    Ground(TypedValue, String),
    /// `[(fulltext $ :attr <search>) [[?e ?v _ ?score]]]`.
    Fulltext(Keyword, FnArg, FulltextBinding),
    /// `[(tx-ids $ ?after ?before) [?tx ...]]`.
    TxIds(FnArg, FnArg, String),
    /// `[(tx-data $ ?tx) [[?e ?a ?v ?tx ?added]]]`.
    TxData(FnArg, Vec<Option<String>>),
}

/// The direction of one ordering.
#[derive(Clone, Copy, Debug, PartialEq, Eq, Structural, Hash)]
pub enum Direction {
    Ascending,
    Descending,
}

/// One `:order` entry.
#[derive(Clone, Debug, PartialEq, Eq)]
pub struct OrderBy(pub Direction, pub String);

/// A whole parsed query: the five possibly-present sections.
#[derive(Clone, Debug, PartialEq, Eq)]
pub struct ParsedQuery {
    pub find: FindSpec,
    pub in_vars: Vec<String>,
    pub with_vars: Vec<String>,
    pub where_clauses: Vec<WhereClause>,
    pub order: Vec<OrderBy>,
}

} // verus!
