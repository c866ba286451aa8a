//! The value model: the closed set of value types, typed values, and the
//! namespaced keywords that name idents and attributes.
//!
//! A `Double` is carried as its IEEE-754 bit pattern, so equality and
//! ordering over typed values are total and deterministic; an `Instant` is
//! carried as microseconds since the epoch; a `Uuid` as its 128 bits.

use vstd::prelude::*;

verus! {

/// A namespaced symbolic identifier such as `:foo/bar`. A keyword whose
/// namespace is empty is plain (`:bar`).
#[derive(Clone, Debug, PartialEq, Eq, Hash)]
pub struct Keyword {
    pub namespace: String,
    pub name: String,
}

impl View for Keyword {
    type V = (Seq<char>, Seq<char>);

    open spec fn view(&self) -> (Seq<char>, Seq<char>) {
        (self.namespace@, self.name@)
    }
}

impl Keyword {
    pub fn namespaced(namespace: &str, name: &str) -> (k: Keyword)
        ensures
            k@ == (namespace@, name@),
    {
        Keyword { namespace: namespace.to_owned(), name: name.to_owned() }
    }

    pub fn plain(name: &str) -> (k: Keyword)
        ensures
            k@ == (Seq::<char>::empty(), name@),
    {
        let namespace = String::new();
        Keyword { namespace, name: name.to_owned() }
    }

    /// A copy with the same components.
    pub fn duplicate(&self) -> (k: Keyword)
        ensures
            k@ == self@,
    {
        Keyword {
            namespace: self.namespace.as_str().to_owned(),
            name: self.name.as_str().to_owned(),
        }
    }

    /// Structural equality over the two components.
    pub fn same(&self, other: &Keyword) -> (r: bool)
        ensures
            r == (self@ == other@),
    {
        let r = self.namespace == other.namespace && self.name == other.name;
        proof {
            if self.namespace@ == other.namespace@ && self.name@ == other.name@ {
                assert(self@ == other@);
            }
        }
        r
    }
}

/// The closed enumeration of value types.
#[derive(Clone, Copy, Debug, PartialEq, Eq, Structural, Hash)]
pub enum ValueType {
    Ref,
    Boolean,
    Instant,
    Long,
    Double,
    String,
    Keyword,
    Uuid,
    Bytes,
}

/// A set of value types: one membership flag per type of the closed
/// enumeration.
#[derive(Clone, Copy, Debug, PartialEq, Eq, Structural)]
pub struct ValueTypeSet {
    pub has_ref: bool,
    pub has_boolean: bool,
    pub has_instant: bool,
    pub has_long: bool,
    pub has_double: bool,
    pub has_string: bool,
    pub has_keyword: bool,
    pub has_uuid: bool,
    pub has_bytes: bool,
}

impl ValueTypeSet {
    /// The set of all value types, as a value.
    pub open spec fn spec_any() -> ValueTypeSet {
        ValueTypeSet {
            has_ref: true,
            has_boolean: true,
            has_instant: true,
            has_long: true,
            has_double: true,
            has_string: true,
            has_keyword: true,
            has_uuid: true,
            has_bytes: true,
        }
    }

    /// The singleton set of one type, as a value.
    pub open spec fn spec_one(t: ValueType) -> ValueTypeSet {
        ValueTypeSet {
            has_ref: t == ValueType::Ref,
            has_boolean: t == ValueType::Boolean,
            has_instant: t == ValueType::Instant,
            has_long: t == ValueType::Long,
            has_double: t == ValueType::Double,
            has_string: t == ValueType::String,
            has_keyword: t == ValueType::Keyword,
            has_uuid: t == ValueType::Uuid,
            has_bytes: t == ValueType::Bytes,
        }
    }

    /// The numeric types, as a value.
    pub open spec fn spec_numeric() -> ValueTypeSet {
        ValueTypeSet {
            has_ref: false,
            has_boolean: false,
            has_instant: false,
            has_long: true,
            has_double: true,
            has_string: false,
            has_keyword: false,
            has_uuid: false,
            has_bytes: false,
        }
    }

    /// Memberwise intersection, as a value.
    pub open spec fn spec_intersect(self, other: ValueTypeSet) -> ValueTypeSet {
        ValueTypeSet {
            has_ref: self.has_ref && other.has_ref,
            has_boolean: self.has_boolean && other.has_boolean,
            has_instant: self.has_instant && other.has_instant,
            has_long: self.has_long && other.has_long,
            has_double: self.has_double && other.has_double,
            has_string: self.has_string && other.has_string,
            has_keyword: self.has_keyword && other.has_keyword,
            has_uuid: self.has_uuid && other.has_uuid,
            has_bytes: self.has_bytes && other.has_bytes,
        }
    }

    /// Whether no type is a member, as a formula over the flags.
    pub open spec fn spec_is_empty(self) -> bool {
        !(self.has_ref || self.has_boolean || self.has_instant || self.has_long
            || self.has_double || self.has_string || self.has_keyword || self.has_uuid
            || self.has_bytes)
    }

    /// Memberwise inclusion, as a formula over the flags.
    pub open spec fn spec_is_subset(self, other: ValueTypeSet) -> bool {
        &&& self.has_ref ==> other.has_ref
        &&& self.has_boolean ==> other.has_boolean
        &&& self.has_instant ==> other.has_instant
        &&& self.has_long ==> other.has_long
        &&& self.has_double ==> other.has_double
        &&& self.has_string ==> other.has_string
        &&& self.has_keyword ==> other.has_keyword
        &&& self.has_uuid ==> other.has_uuid
        &&& self.has_bytes ==> other.has_bytes
    }

    /// Membership of a value type in this set.
    pub open spec fn spec_contains(self, t: ValueType) -> bool {
        match t {
            ValueType::Ref => self.has_ref,
            ValueType::Boolean => self.has_boolean,
            ValueType::Instant => self.has_instant,
            ValueType::Long => self.has_long,
            ValueType::Double => self.has_double,
            ValueType::String => self.has_string,
            ValueType::Keyword => self.has_keyword,
            ValueType::Uuid => self.has_uuid,
            ValueType::Bytes => self.has_bytes,
        }
    }

    /// The set of all value types.
    pub fn any() -> (s: ValueTypeSet)
        ensures
            forall|t: ValueType| s.spec_contains(t),
            s == ValueTypeSet::spec_any(),
    {
        ValueTypeSet {
            has_ref: true,
            has_boolean: true,
            has_instant: true,
            has_long: true,
            has_double: true,
            has_string: true,
            has_keyword: true,
            has_uuid: true,
            has_bytes: true,
        }
    }

    /// The empty set of value types.
    pub fn none() -> (s: ValueTypeSet)
        ensures
            forall|t: ValueType| !s.spec_contains(t),
    {
        ValueTypeSet {
            has_ref: false,
            has_boolean: false,
            has_instant: false,
            has_long: false,
            has_double: false,
            has_string: false,
            has_keyword: false,
            has_uuid: false,
            has_bytes: false,
        }
    }

    /// The singleton set holding `t`.
    pub fn of_one(t: ValueType) -> (s: ValueTypeSet)
        ensures
            forall|u: ValueType| s.spec_contains(u) <==> u == t,
            s == ValueTypeSet::spec_one(t),
    {
        ValueTypeSet {
            has_ref: matches!(t, ValueType::Ref),
            has_boolean: matches!(t, ValueType::Boolean),
            has_instant: matches!(t, ValueType::Instant),
            has_long: matches!(t, ValueType::Long),
            has_double: matches!(t, ValueType::Double),
            has_string: matches!(t, ValueType::String),
            has_keyword: matches!(t, ValueType::Keyword),
            has_uuid: matches!(t, ValueType::Uuid),
            has_bytes: matches!(t, ValueType::Bytes),
        }
    }

    /// The numeric types: `Long` and `Double`.
    pub fn of_numeric() -> (s: ValueTypeSet)
        ensures
            forall|t: ValueType|
                s.spec_contains(t) <==> (t == ValueType::Long || t == ValueType::Double),
            s == ValueTypeSet::spec_numeric(),
    {
        ValueTypeSet {
            has_ref: false,
            has_boolean: false,
            has_instant: false,
            has_long: true,
            has_double: true,
            has_string: false,
            has_keyword: false,
            has_uuid: false,
            has_bytes: false,
        }
    }

    /// Membership test.
    pub fn contains(&self, t: ValueType) -> (r: bool)
        ensures
            r == self.spec_contains(t),
    {
        match t {
            ValueType::Ref => self.has_ref,
            ValueType::Boolean => self.has_boolean,
            ValueType::Instant => self.has_instant,
            ValueType::Long => self.has_long,
            ValueType::Double => self.has_double,
            ValueType::String => self.has_string,
            ValueType::Keyword => self.has_keyword,
            ValueType::Uuid => self.has_uuid,
            ValueType::Bytes => self.has_bytes,
        }
    }

    /// Intersection, memberwise.
    pub fn intersect(&self, other: &ValueTypeSet) -> (s: ValueTypeSet)
        ensures
            forall|t: ValueType|
                s.spec_contains(t) <==> (self.spec_contains(t) && other.spec_contains(t)),
            s == self.spec_intersect(*other),
    {
        ValueTypeSet {
            has_ref: self.has_ref && other.has_ref,
            has_boolean: self.has_boolean && other.has_boolean,
            has_instant: self.has_instant && other.has_instant,
            has_long: self.has_long && other.has_long,
            has_double: self.has_double && other.has_double,
            has_string: self.has_string && other.has_string,
            has_keyword: self.has_keyword && other.has_keyword,
            has_uuid: self.has_uuid && other.has_uuid,
            has_bytes: self.has_bytes && other.has_bytes,
        }
    }

    /// Whether no value type is a member.
    pub fn is_empty(&self) -> (r: bool)
        ensures
            r == (forall|t: ValueType| !self.spec_contains(t)),
            r == self.spec_is_empty(),
    {
        let r = !(self.has_ref || self.has_boolean || self.has_instant || self.has_long
            || self.has_double || self.has_string || self.has_keyword || self.has_uuid
            || self.has_bytes);
        proof {
            if !r {
                if self.has_ref {
                    assert(self.spec_contains(ValueType::Ref));
                } else if self.has_boolean {
                    assert(self.spec_contains(ValueType::Boolean));
                } else if self.has_instant {
                    assert(self.spec_contains(ValueType::Instant));
                } else if self.has_long {
                    assert(self.spec_contains(ValueType::Long));
                } else if self.has_double {
                    assert(self.spec_contains(ValueType::Double));
                } else if self.has_string {
                    assert(self.spec_contains(ValueType::String));
                } else if self.has_keyword {
                    assert(self.spec_contains(ValueType::Keyword));
                } else if self.has_uuid {
                    assert(self.spec_contains(ValueType::Uuid));
                } else {
                    assert(self.spec_contains(ValueType::Bytes));
                }
            }
        }
        r
    }

    /// Whether every member of this set is a member of `other`.
    pub fn is_subset(&self, other: &ValueTypeSet) -> (r: bool)
        ensures
            r == (forall|t: ValueType| self.spec_contains(t) ==> other.spec_contains(t)),
            r == self.spec_is_subset(*other),
    {
        let r = (!self.has_ref || other.has_ref) && (!self.has_boolean || other.has_boolean)
            && (!self.has_instant || other.has_instant) && (!self.has_long || other.has_long)
            && (!self.has_double || other.has_double) && (!self.has_string || other.has_string)
            && (!self.has_keyword || other.has_keyword) && (!self.has_uuid || other.has_uuid)
            && (!self.has_bytes || other.has_bytes);
        proof {
            if !r {
                if self.has_ref && !other.has_ref {
                    assert(self.spec_contains(ValueType::Ref) && !other.spec_contains(
                        ValueType::Ref,
                    ));
                } else if self.has_boolean && !other.has_boolean {
                    assert(self.spec_contains(ValueType::Boolean) && !other.spec_contains(
                        ValueType::Boolean,
                    ));
                } else if self.has_instant && !other.has_instant {
                    assert(self.spec_contains(ValueType::Instant) && !other.spec_contains(
                        ValueType::Instant,
                    ));
                } else if self.has_long && !other.has_long {
                    assert(self.spec_contains(ValueType::Long) && !other.spec_contains(
                        ValueType::Long,
                    ));
                } else if self.has_double && !other.has_double {
                    assert(self.spec_contains(ValueType::Double) && !other.spec_contains(
                        ValueType::Double,
                    ));
                } else if self.has_string && !other.has_string {
                    assert(self.spec_contains(ValueType::String) && !other.spec_contains(
                        ValueType::String,
                    ));
                } else if self.has_keyword && !other.has_keyword {
                    assert(self.spec_contains(ValueType::Keyword) && !other.spec_contains(
                        ValueType::Keyword,
                    ));
                } else if self.has_uuid && !other.has_uuid {
                    assert(self.spec_contains(ValueType::Uuid) && !other.spec_contains(
                        ValueType::Uuid,
                    ));
                } else {
                    assert(self.spec_contains(ValueType::Bytes) && !other.spec_contains(
                        ValueType::Bytes,
                    ));
                }
            }
        }
        r
    }
}

/// A typed value: the pair of a value type and a value drawn from it.
#[derive(Clone, Debug, PartialEq, Eq)]
pub enum TypedValue {
    Ref(i64),
    Boolean(bool),
    Instant(i64),
    Long(i64),
    Double(u64),
    String(String),
    Keyword(Keyword),
    Uuid(u128),
    Bytes(Vec<u8>),
}

/// The mathematical model of a typed value, over sequences and unbounded
/// integers.
pub enum Value {
    Ref(int),
    Boolean(bool),
    Instant(int),
    Long(int),
    Double(u64),
    Text(Seq<char>),
    Keyword((Seq<char>, Seq<char>)),
    Uuid(u128),
    Bytes(Seq<u8>),
}

impl View for TypedValue {
    type V = Value;

    open spec fn view(&self) -> Value {
        match self {
            TypedValue::Ref(e) => Value::Ref(*e as int),
            TypedValue::Boolean(b) => Value::Boolean(*b),
            TypedValue::Instant(t) => Value::Instant(*t as int),
            TypedValue::Long(n) => Value::Long(*n as int),
            TypedValue::Double(bits) => Value::Double(*bits),
            TypedValue::String(s) => Value::Text(s@),
            TypedValue::Keyword(k) => Value::Keyword(k@),
            TypedValue::Uuid(u) => Value::Uuid(*u),
            TypedValue::Bytes(b) => Value::Bytes(b@),
        }
    }
}

/// The type a model value belongs to.
pub open spec fn spec_value_type_of(v: Value) -> ValueType {
    match v {
        Value::Ref(_) => ValueType::Ref,
        Value::Boolean(_) => ValueType::Boolean,
        Value::Instant(_) => ValueType::Instant,
        Value::Long(_) => ValueType::Long,
        Value::Double(_) => ValueType::Double,
        Value::Text(_) => ValueType::String,
        Value::Keyword(_) => ValueType::Keyword,
        Value::Uuid(_) => ValueType::Uuid,
        Value::Bytes(_) => ValueType::Bytes,
    }
}

/// Whether a model value belongs to a value type.
pub open spec fn spec_matches_type(v: Value, t: ValueType) -> bool {
    spec_value_type_of(v) == t
}

impl TypedValue {
    /// The total destructor that discriminates the variant.
    pub fn value_type(&self) -> (t: ValueType)
        ensures
            t == spec_value_type_of(self@),
    {
        match self {
            TypedValue::Ref(_) => ValueType::Ref,
            TypedValue::Boolean(_) => ValueType::Boolean,
            TypedValue::Instant(_) => ValueType::Instant,
            TypedValue::Long(_) => ValueType::Long,
            TypedValue::Double(_) => ValueType::Double,
            TypedValue::String(_) => ValueType::String,
            TypedValue::Keyword(_) => ValueType::Keyword,
            TypedValue::Uuid(_) => ValueType::Uuid,
            TypedValue::Bytes(_) => ValueType::Bytes,
        }
    }

    /// Whether this value belongs to the given value type.
    pub fn matches_type(&self, t: ValueType) -> (r: bool)
        ensures
            r == spec_matches_type(self@, t),
    {
        self.value_type() == t
    }

    /// A copy with the same model value.
    pub fn duplicate(&self) -> (r: TypedValue)
        ensures
            r@ == self@,
    {
        match self {
            TypedValue::Ref(e) => TypedValue::Ref(*e),
            TypedValue::Boolean(b) => TypedValue::Boolean(*b),
            TypedValue::Instant(t) => TypedValue::Instant(*t),
            TypedValue::Long(n) => TypedValue::Long(*n),
            TypedValue::Double(bits) => TypedValue::Double(*bits),
            TypedValue::String(s) => TypedValue::String(s.as_str().to_owned()),
            TypedValue::Keyword(k) => TypedValue::Keyword(k.duplicate()),
            TypedValue::Uuid(u) => TypedValue::Uuid(*u),
            TypedValue::Bytes(b) => TypedValue::Bytes(copy_bytes(b)),
        }
    }

    /// Structural equality; `Double` compares by bit pattern.
    pub fn same(&self, other: &TypedValue) -> (r: bool)
        ensures
            r == (self@ == other@),
    {
        match (self, other) {
            (TypedValue::Ref(a), TypedValue::Ref(b)) => a == b,
            (TypedValue::Boolean(a), TypedValue::Boolean(b)) => a == b,
            (TypedValue::Instant(a), TypedValue::Instant(b)) => a == b,
            (TypedValue::Long(a), TypedValue::Long(b)) => a == b,
            (TypedValue::Double(a), TypedValue::Double(b)) => a == b,
            (TypedValue::String(a), TypedValue::String(b)) => String::eq(a, b),
            (TypedValue::Keyword(a), TypedValue::Keyword(b)) => a.same(b),
            (TypedValue::Uuid(a), TypedValue::Uuid(b)) => a == b,
            (TypedValue::Bytes(a), TypedValue::Bytes(b)) => eq_bytes(a, b),
            _ => false,
        }
    }
}

/// A value as the external symbolic-data parser hands it over, before
/// schema-directed type checking. Variants outside the core value set
/// (big integers, lists, vectors, maps) are carried so that the type
/// checker can reject them.
#[derive(Debug)]
pub enum RawValue {
    Boolean(bool),
    Long(i64),
    BigInteger(String),
    Double(u64),
    Text(String),
    Keyword(Keyword),
    Uuid(u128),
    Instant(i64),
    Bytes(Vec<u8>),
    List(Vec<RawValue>),
    Vector(Vec<RawValue>),
    MapValue(Vec<RawEntry>),
}

/// One key-value pair of a parsed map form.
#[derive(Debug)]
pub struct RawEntry {
    pub key: RawValue,
    pub val: RawValue,
}

/// Copy a byte vector.
fn copy_bytes(b: &Vec<u8>) -> (r: Vec<u8>)
    ensures
        r@ == b@,
{
    let mut r: Vec<u8> = Vec::new();
    let mut i: usize = 0;
    while i < b.len()
        invariant
            i <= b@.len(),
            r@ == b@.take(i as int),
        decreases b@.len() - i,
    {
        r.push(b[i]);
        proof {
            assert(r@ =~= b@.take(i as int + 1));
        }
        i += 1;
    }
    proof {
        assert(b@.take(i as int) =~= b@);
    }
    r
}

/// Byte-sequence equality.
fn eq_bytes(a: &Vec<u8>, b: &Vec<u8>) -> (r: bool)
    ensures
        r == (a@ == b@),
{
    if a.len() != b.len() {
        proof {
            assert(a@.len() != b@.len());
        }
        return false;
    }
    let mut i: usize = 0;
    while i < a.len()
        invariant
            i <= a.len(),
            a@.len() == b@.len(),
            forall|j: int| 0 <= j < i ==> a@[j] == b@[j],
        decreases a.len() - i,
    {
        if a[i] != b[i] {
            return false;
        }
        i += 1;
    }
    proof {
        assert(a@ =~= b@);
    }
    true
}

} // verus!
