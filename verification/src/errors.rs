//! The closed error taxonomy surfaced to callers. Every error is a
//! structured value; discriminators carry data, not free-form prose,
//! except for the schema-assertion message, which names the offending
//! ident.

use vstd::prelude::*;
use crate::query::AggregateOp;
use crate::values::{RawValue, ValueType, ValueTypeSet};

verus! {

/// Everything the schema manager, type checker, algebrizer and
/// transactor can refuse.
#[derive(Debug)]
pub enum CoreError {
    /// An attribute or alteration breaks a schema invariant; the message
    /// names the offending ident.
    BadSchemaAssertion(String),
    /// A registry miss where an entid's ident was required.
    UnrecognizedEntid(i64),
    /// A registry miss where an ident's entid was required.
    UnrecognizedIdent(String),
    /// Schema-directed coercion failed: the raw value cannot inhabit the
    /// expected type.
    BadValuePair(RawValue, ValueType),
    /// A query was executed without values for these `:in` variables.
    UnboundVariables(Vec<String>),
    /// A predicate argument was ill-typed or unbound: the symbol, what
    /// was expected of it, and its argument position.
    InvalidArgument(String, String, usize),
    /// An aggregate over a type set it does not accept.
    CannotApplyAggregateOperationToTypes(AggregateOp, ValueTypeSet),
    /// `the` used ambiguously: how many min/max aggregates and how many
    /// `the` aggregates stood in the projection.
    AmbiguousAggregates(usize, usize),
    /// Multiple distinct upserts resolved the same tempid to
    /// contradicting entids.
    ConflictingUpsert,
    /// The in-memory evaluator cannot run this yet: fulltext and
    /// transaction-log clauses await the storage collaborator's
    /// primitives, `avg` awaits floating point, and counts or sums
    /// beyond the 64-bit range are refused. Not part of the core's own
    /// taxonomy above.
    NotYetImplemented(String),
}

} // verus!
