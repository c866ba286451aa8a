//! The schema: the identifier registry that ties namespaced keywords to
//! entids, the attribute map, cross-attribute validation, and
//! schema-directed type checking of parsed values.
//!
//! The registry is one association list; both lookup directions read it,
//! so the two mappings agree by construction, and well-formedness makes
//! them mutual inverses.

use vstd::prelude::*;
use crate::attributes::{validate_error_message, Attribute, AttributeValidation};
use crate::errors::CoreError;
use crate::render::{dec_rep_signed, keyword_rep, render_i64, render_keyword};
use crate::values::{Keyword, RawValue, TypedValue, Value, ValueType};

verus! {

/// First-match lookup of an entid by keyword.
pub open spec fn lookup_entid(s: Seq<(Keyword, i64)>, k: (Seq<char>, Seq<char>)) -> Option<i64>
    decreases s.len(),
{
    if s.len() == 0 {
        None
    } else if s[0].0@ == k {
        Some(s[0].1)
    } else {
        lookup_entid(s.drop_first(), k)
    }
}

/// First-match lookup of a keyword by entid.
pub open spec fn lookup_ident(s: Seq<(Keyword, i64)>, e: i64) -> Option<(Seq<char>, Seq<char>)>
    decreases s.len(),
{
    if s.len() == 0 {
        None
    } else if s[0].1 == e {
        Some(s[0].0@)
    } else {
        lookup_ident(s.drop_first(), e)
    }
}

/// First-match lookup of an attribute by entid.
pub open spec fn lookup_attribute(s: Seq<(i64, Attribute)>, e: i64) -> Option<Attribute>
    decreases s.len(),
{
    if s.len() == 0 {
        None
    } else if s[0].0 == e {
        Some(s[0].1)
    } else {
        lookup_attribute(s.drop_first(), e)
    }
}

/// The registry with the first entry of this entid removed; the rest
/// keep their places.
pub open spec fn remove_entid_entry(s: Seq<(Keyword, i64)>, e: i64) -> Seq<(Keyword, i64)>
    decreases s.len(),
{
    if s.len() == 0 {
        s
    } else if s[0].1 == e {
        s.drop_first()
    } else {
        seq![s[0]] + remove_entid_entry(s.drop_first(), e)
    }
}

/// The name an entid carries in an error message: its keyword when it is
/// an ident, else its decimal form.
pub open spec fn rendered_entid(idents: Seq<(Keyword, i64)>, e: i64) -> Seq<char> {
    match lookup_ident(idents, e) {
        Some(k) => keyword_rep(k),
        None => dec_rep_signed(e as int),
    }
}

/// The message for the first attribute of the map that breaks an
/// invariant, or `None` when the map is valid.
pub open spec fn attribute_map_error(
    idents: Seq<(Keyword, i64)>,
    attrs: Seq<(i64, Attribute)>,
) -> Option<Seq<char>>
    decreases attrs.len(),
{
    if attrs.len() == 0 {
        None
    } else if !attrs[0].1.invariants_hold() {
        Some(validate_error_message(attrs[0].1, rendered_entid(idents, attrs[0].0)))
    } else {
        attribute_map_error(idents, attrs.drop_first())
    }
}

/// The entids of the attributes marked `component`, in map order.
pub open spec fn spec_component_attributes(s: Seq<(i64, Attribute)>) -> Seq<i64>
    decreases s.len(),
{
    if s.len() == 0 {
        Seq::empty()
    } else {
        spec_component_attributes(s.drop_last()) + (if s.last().1.component {
            seq![s.last().0]
        } else {
            Seq::empty()
        })
    }
}

/// The schema: its identifier registry, its attribute map, and the
/// cached list of component attributes.
#[derive(Clone, Debug)]
pub struct Schema {
    /// The registry: keyword-entid pairs, one per ident, read in both
    /// directions.
    pub ident_map: Vec<(Keyword, i64)>,
    /// Attribute metadata, keyed by entid.
    pub attribute_map: Vec<(i64, Attribute)>,
    /// The entids of attributes marked `component`.
    pub component_attributes: Vec<i64>,
}

impl Default for Schema {
    fn default() -> (s: Schema)
        ensures
            s.ident_map@.len() == 0,
            s.attribute_map@.len() == 0,
            s.component_attributes@.len() == 0,
    {
        Schema { ident_map: Vec::new(), attribute_map: Vec::new(), component_attributes: Vec::new() }
    }
}

impl Schema {
    /// The registry is bijective: no keyword and no entid occurs twice,
    /// and every entid is positive.
    pub open spec fn idents_wf(self) -> bool {
        &&& forall|i: int, j: int|
            0 <= i < j < self.ident_map@.len() ==> ((#[trigger] self.ident_map@[i]).0@ != (
            #[trigger] self.ident_map@[j]).0@ && self.ident_map@[i].1 != self.ident_map@[j].1)
        &&& forall|i: int|
            0 <= i < self.ident_map@.len() ==> (#[trigger] self.ident_map@[i]).1 > 0
    }

    /// No entid carries two attribute entries.
    pub open spec fn attributes_wf(self) -> bool {
        forall|i: int, j: int|
            0 <= i < j < self.attribute_map@.len() ==> (#[trigger] self.attribute_map@[i]).0 != (
            #[trigger] self.attribute_map@[j]).0
    }

    /// Well-formedness of the whole schema.
    pub open spec fn wf(self) -> bool {
        self.idents_wf() && self.attributes_wf()
    }

    /// Install an ident: write-once per key pair, so a keyword or entid
    /// already present refuses the insertion; a well-formed registry
    /// stays well-formed.
    pub fn install_ident(&mut self, ident: Keyword, entid: i64) -> (ok: bool)
        ensures
            ok == (entid > 0 && lookup_entid(old(self).ident_map@, ident@) is None
                && lookup_ident(old(self).ident_map@, entid) is None),
            ok ==> final(self).ident_map@ == old(self).ident_map@.push((ident, entid)),
            !ok ==> final(self).ident_map@ == old(self).ident_map@,
            final(self).attribute_map == old(self).attribute_map,
            final(self).component_attributes == old(self).component_attributes,
            old(self).idents_wf() ==> final(self).idents_wf(),
    {
        if entid <= 0 {
            return false;
        }
        let kw_known = match self.get_entid(&ident) {
            Some(_) => true,
            None => false,
        };
        let id_known = match self.get_ident(entid) {
            Some(_) => true,
            None => false,
        };
        if kw_known || id_known {
            return false;
        }
        proof {
            lemma_lookup_entid_none_distinct(self.ident_map@, ident@);
            lemma_lookup_ident_none_distinct(self.ident_map@, entid);
        }
        self.ident_map.push((ident, entid));
        true
    }

    /// Remove an ident by its entid; one entry serves both directions,
    /// so both mappings go at once.
    #[verifier::loop_isolation(false)]
    pub fn remove_ident(&mut self, entid: i64)
        requires
            old(self).idents_wf(),
        ensures
            lookup_ident(final(self).ident_map@, entid) is None,
            final(self).ident_map@ == remove_entid_entry(old(self).ident_map@, entid),
            final(self).attribute_map == old(self).attribute_map,
            final(self).component_attributes == old(self).component_attributes,
            final(self).idents_wf(),
    {
        let ghost sq = self.ident_map@;
        let mut i: usize = 0;
        while i < self.ident_map.len()
            invariant
                i <= sq.len(),
                sq == self.ident_map@,
                forall|p: int| 0 <= p < i ==> (#[trigger] sq[p]).1 != entid,
                self.ident_map == old(self).ident_map,
                self.attribute_map == old(self).attribute_map,
                self.component_attributes == old(self).component_attributes,
            decreases sq.len() - i,
        {
            if self.ident_map[i].1 == entid {
                self.ident_map.remove(i);
                proof {
                    assert(self.ident_map@ =~= sq.subrange(0, i as int) + sq.subrange(
                        i as int + 1,
                        sq.len() as int,
                    ));
                    assert forall|p: int| 0 <= p < self.ident_map@.len() implies #[trigger] self
                        .ident_map@[p] == (if p < i as int {
                        sq[p]
                    } else {
                        sq[p + 1]
                    }) by {}
                    assert(forall|p: int|
                        0 <= p < self.ident_map@.len() ==> (#[trigger] self.ident_map@[p]).1
                            != entid);
                    lemma_all_distinct_lookup_ident_none(self.ident_map@, entid);
                    lemma_remove_entid_at(sq, entid, i as int);
                    assert forall|a: int, b: int|
                        0 <= a < b < self.ident_map@.len() implies ((#[trigger] self
                        .ident_map@[a]).0@ != (#[trigger] self.ident_map@[b]).0@ && self
                        .ident_map@[a].1 != self.ident_map@[b].1) by {
                        let a2 = if a < i as int { a } else { a + 1 };
                        let b2 = if b < i as int { b } else { b + 1 };
                        assert(self.ident_map@[a] == sq[a2]);
                        assert(self.ident_map@[b] == sq[b2]);
                    }
                }
                return ;
            }
            i += 1;
        }
        proof {
            lemma_all_distinct_lookup_ident_none(self.ident_map@, entid);
            lemma_remove_entid_absent(self.ident_map@, entid);
        }
    }

    /// Look the entid of a keyword up.
    pub fn get_entid(&self, ident: &Keyword) -> (r: Option<i64>)
        ensures
            r == lookup_entid(self.ident_map@, ident@),
    {
        lookup_entid_exec(&self.ident_map, ident)
    }

    /// Look the keyword of an entid up.
    pub fn get_ident(&self, entid: i64) -> (r: Option<&Keyword>)
        ensures
            match lookup_ident(self.ident_map@, entid) {
                Some(kv) => r matches Some(k) && k@ == kv,
                None => r is None,
            },
    {
        let ghost s = self.ident_map@;
        let mut i: usize = 0;
        proof {
            assert(s.skip(0) =~= s);
        }
        while i < self.ident_map.len()
            invariant
                i <= s.len(),
                s == self.ident_map@,
                lookup_ident(s, entid) == lookup_ident(s.skip(i as int), entid),
            decreases s.len() - i,
        {
            proof {
                assert(s.skip(i as int)[0] == s[i as int]);
            }
            let entry = &self.ident_map[i];
            if entry.1 == entid {
                return Some(&entry.0);
            }
            proof {
                assert(s.skip(i as int).drop_first() =~= s.skip(i as int + 1));
            }
            i += 1;
        }
        proof {
            assert(s.skip(i as int) =~= Seq::<(Keyword, i64)>::empty());
        }
        None
    }

    /// Look the attribute of an entid up.
    pub fn attribute_for_entid(&self, entid: i64) -> (r: Option<Attribute>)
        ensures
            r == lookup_attribute(self.attribute_map@, entid),
    {
        lookup_attribute_exec(&self.attribute_map, entid)
    }
}

/// Free-standing attribute lookup over an attribute map.
pub(crate) fn lookup_attribute_exec(attrs: &Vec<(i64, Attribute)>, entid: i64) -> (r: Option<
    Attribute,
>)
    ensures
        r == lookup_attribute(attrs@, entid),
{
    let ghost s = attrs@;
    let mut i: usize = 0;
    proof {
        assert(s.skip(0) =~= s);
    }
    while i < attrs.len()
        invariant
            i <= s.len(),
            s == attrs@,
            lookup_attribute(s, entid) == lookup_attribute(s.skip(i as int), entid),
        decreases s.len() - i,
    {
        proof {
            assert(s.skip(i as int)[0] == s[i as int]);
        }
        let entry = &attrs[i];
        if entry.0 == entid {
            return Some(entry.1);
        }
        proof {
            assert(s.skip(i as int).drop_first() =~= s.skip(i as int + 1));
        }
        i += 1;
    }
    proof {
        assert(s.skip(i as int) =~= Seq::<(i64, Attribute)>::empty());
    }
    None
}

/// Building a schema and requiring its entries: the operations the
/// transactor and the algebrizer lean on.
pub trait SchemaBuilding {
    /// What `get_ident` finds for an entid.
    spec fn spec_lookup_ident(&self, entid: i64) -> Option<(Seq<char>, Seq<char>)>;

    /// What `get_entid` finds for a keyword.
    spec fn spec_lookup_entid(&self, k: (Seq<char>, Seq<char>)) -> Option<i64>;

    /// What `attribute_for_entid` finds for an entid.
    spec fn spec_lookup_attribute(&self, entid: i64) -> Option<Attribute>;

    /// The keyword of an entid, or `UnrecognizedEntid`.
    fn require_ident(&self, entid: i64) -> (r: Result<&Keyword, CoreError>)
        ensures
            match self.spec_lookup_ident(entid) {
                Some(kv) => r matches Ok(k) && k@ == kv,
                None => r matches Err(e) && e matches CoreError::UnrecognizedEntid(x) && x
                    == entid,
            },
    ;

    /// The entid of a keyword, or `UnrecognizedIdent`.
    fn require_entid(&self, ident: &Keyword) -> (r: Result<i64, CoreError>)
        ensures
            match self.spec_lookup_entid(ident@) {
                Some(e) => r matches Ok(x) && x == e,
                None => r matches Err(e) && e matches CoreError::UnrecognizedIdent(s) && s@
                    == keyword_rep(ident@),
            },
    ;

    /// The attribute of an entid, or `UnrecognizedEntid`.
    fn require_attribute_for_entid(&self, entid: i64) -> (r: Result<Attribute, CoreError>)
        ensures
            match self.spec_lookup_attribute(entid) {
                Some(a) => r matches Ok(x) && x == a,
                None => r matches Err(e) && e matches CoreError::UnrecognizedEntid(x) && x
                    == entid,
            },
    ;
}

impl SchemaBuilding for Schema {
    open spec fn spec_lookup_ident(&self, entid: i64) -> Option<(Seq<char>, Seq<char>)> {
        lookup_ident(self.ident_map@, entid)
    }

    open spec fn spec_lookup_entid(&self, k: (Seq<char>, Seq<char>)) -> Option<i64> {
        lookup_entid(self.ident_map@, k)
    }

    open spec fn spec_lookup_attribute(&self, entid: i64) -> Option<Attribute> {
        lookup_attribute(self.attribute_map@, entid)
    }

    fn require_ident(&self, entid: i64) -> (r: Result<&Keyword, CoreError>) {
        match self.get_ident(entid) {
            Some(k) => Ok(k),
            None => Err(CoreError::UnrecognizedEntid(entid)),
        }
    }

    fn require_entid(&self, ident: &Keyword) -> (r: Result<i64, CoreError>) {
        match self.get_entid(ident) {
            Some(e) => Ok(e),
            None => Err(CoreError::UnrecognizedIdent(render_keyword(ident))),
        }
    }

    fn require_attribute_for_entid(&self, entid: i64) -> (r: Result<Attribute, CoreError>) {
        match self.attribute_for_entid(entid) {
            Some(a) => Ok(a),
            None => Err(CoreError::UnrecognizedEntid(entid)),
        }
    }
}

/// Render the name an entid carries in an error message.
fn render_entid_name(ident_map: &Vec<(Keyword, i64)>, e: i64) -> (s: String)
    ensures
        s@ == rendered_entid(ident_map@, e),
{
    let ghost sq = ident_map@;
    let mut i: usize = 0;
    proof {
        assert(sq.skip(0) =~= sq);
    }
    while i < ident_map.len()
        invariant
            i <= sq.len(),
            sq == ident_map@,
            lookup_ident(sq, e) == lookup_ident(sq.skip(i as int), e),
        decreases sq.len() - i,
    {
        proof {
            assert(sq.skip(i as int)[0] == sq[i as int]);
        }
        let entry = &ident_map[i];
        if entry.1 == e {
            return render_keyword(&entry.0);
        }
        proof {
            assert(sq.skip(i as int).drop_first() =~= sq.skip(i as int + 1));
        }
        i += 1;
    }
    proof {
        assert(sq.skip(i as int) =~= Seq::<(Keyword, i64)>::empty());
    }
    render_i64(e)
}

/// Check every attribute of the map against the invariants; an error
/// names the first offender by its ident, or by its entid when it has
/// none.
pub fn validate_attribute_map(
    ident_map: &Vec<(Keyword, i64)>,
    attribute_map: &Vec<(i64, Attribute)>,
) -> (r: Result<(), CoreError>)
    ensures
        r is Ok <==> attribute_map_error(ident_map@, attribute_map@) is None,
        r is Ok <==> (forall|i: int|
            0 <= i < attribute_map@.len() ==> (#[trigger] attribute_map@[i]).1.invariants_hold()),
        r matches Err(e) ==> (e matches CoreError::BadSchemaAssertion(m) && Some(m@)
            == attribute_map_error(ident_map@, attribute_map@)),
{
    let ghost sq = attribute_map@;
    let mut i: usize = 0;
    proof {
        assert(sq.skip(0) =~= sq);
    }
    while i < attribute_map.len()
        invariant
            i <= sq.len(),
            sq == attribute_map@,
            attribute_map_error(ident_map@, sq) == attribute_map_error(
                ident_map@,
                sq.skip(i as int),
            ),
            forall|j: int| 0 <= j < i ==> (#[trigger] sq[j]).1.invariants_hold(),
        decreases sq.len() - i,
    {
        proof {
            assert(sq.skip(i as int)[0] == sq[i as int]);
        }
        let entry = &attribute_map[i];
        let name = render_entid_name(ident_map, entry.0);
        match entry.1.validate(name) {
            Ok(()) => {},
            Err(e) => {
                proof {
                    assert(!sq[i as int].1.invariants_hold());
                }
                return Err(e);
            },
        }
        proof {
            assert(sq.skip(i as int).drop_first() =~= sq.skip(i as int + 1));
        }
        i += 1;
    }
    proof {
        assert(sq.skip(i as int) =~= Seq::<(i64, Attribute)>::empty());
        lemma_attribute_map_error_none(ident_map@, sq);
    }
    Ok(())
}

/// A valid attribute map is exactly one whose every attribute obeys the
/// invariants.
proof fn lemma_attribute_map_error_none(idents: Seq<(Keyword, i64)>, attrs: Seq<(i64, Attribute)>)
    ensures
        attribute_map_error(idents, attrs) is None <==> (forall|i: int|
            0 <= i < attrs.len() ==> (#[trigger] attrs[i]).1.invariants_hold()),
    decreases attrs.len(),
{
    if attrs.len() > 0 {
        lemma_attribute_map_error_none(idents, attrs.drop_first());
        assert(forall|i: int|
            0 <= i < attrs.drop_first().len() ==> #[trigger] attrs.drop_first()[i] == attrs[i + 1]);
        if attrs[0].1.invariants_hold() && attribute_map_error(idents, attrs.drop_first()) is None {
            assert(forall|i: int|
                0 < i < attrs.len() ==> (#[trigger] attrs[i]) == attrs.drop_first()[i - 1]);
        }
    }
}

/// Every attribute of a schema that passed validation obeys the four
/// invariants: the statement of the validator's point, over the model of
/// the attribute map.
pub proof fn lemma_valid_schema_attributes_obey_invariants(
    idents: Seq<(Keyword, i64)>,
    attrs: Seq<(i64, Attribute)>,
)
    requires
        attribute_map_error(idents, attrs) is None,
    ensures
        forall|i: int| 0 <= i < attrs.len() ==> (#[trigger] attrs[i]).1.invariants_hold(),
{
    lemma_attribute_map_error_none(idents, attrs);
}

/// In a well-formed registry the two directions are mutual inverses:
/// looking up the entid an ident maps to gives that ident back.
pub proof fn lemma_ident_round_trip(s: Schema, k: (Seq<char>, Seq<char>), e: i64)
    requires
        s.idents_wf(),
        lookup_entid(s.ident_map@, k) == Some(e),
    ensures
        lookup_ident(s.ident_map@, e) == Some(k),
{
    lemma_lookup_entid_witness(s.ident_map@, k, e);
    let i = choose|i: int|
        0 <= i < s.ident_map@.len() && (#[trigger] s.ident_map@[i]).0@ == k && s.ident_map@[i].1
            == e;
    lemma_lookup_ident_found(s.ident_map@, e, i);
}

/// With no earlier match, removing the entry at `i` is the first-match
/// removal.
proof fn lemma_remove_entid_at(s: Seq<(Keyword, i64)>, e: i64, i: int)
    requires
        0 <= i < s.len(),
        s[i].1 == e,
        forall|p: int| 0 <= p < i ==> (#[trigger] s[p]).1 != e,
    ensures
        remove_entid_entry(s, e) == s.subrange(0, i) + s.subrange(i + 1, s.len() as int),
    decreases s.len(),
{
    if i == 0 {
        assert(s.drop_first() =~= s.subrange(0, 0) + s.subrange(1, s.len() as int));
    } else {
        assert(forall|p: int|
            0 <= p < s.drop_first().len() ==> #[trigger] s.drop_first()[p] == s[p + 1]);
        lemma_remove_entid_at(s.drop_first(), e, i - 1);
        assert(seq![s[0]] + (s.drop_first().subrange(0, i - 1) + s.drop_first().subrange(
            i,
            s.drop_first().len() as int,
        )) =~= s.subrange(0, i) + s.subrange(i + 1, s.len() as int));
    }
}

/// With no match at all, the first-match removal changes nothing.
proof fn lemma_remove_entid_absent(s: Seq<(Keyword, i64)>, e: i64)
    requires
        forall|p: int| 0 <= p < s.len() ==> (#[trigger] s[p]).1 != e,
    ensures
        remove_entid_entry(s, e) == s,
    decreases s.len(),
{
    if s.len() > 0 {
        assert(forall|p: int|
            0 <= p < s.drop_first().len() ==> #[trigger] s.drop_first()[p] == s[p + 1]);
        lemma_remove_entid_absent(s.drop_first(), e);
        assert(seq![s[0]] + s.drop_first() =~= s);
    }
}

/// A keyword that misses has no entry.
proof fn lemma_lookup_entid_none_distinct(sq: Seq<(Keyword, i64)>, k: (Seq<char>, Seq<char>))
    requires
        lookup_entid(sq, k) is None,
    ensures
        forall|p: int| 0 <= p < sq.len() ==> (#[trigger] sq[p]).0@ != k,
    decreases sq.len(),
{
    if sq.len() > 0 {
        lemma_lookup_entid_none_distinct(sq.drop_first(), k);
        assert forall|p: int| 0 <= p < sq.len() implies (#[trigger] sq[p]).0@ != k by {
            if p > 0 {
                assert(sq.drop_first()[p - 1] == sq[p]);
            }
        }
    }
}

/// An entid that misses has no entry.
proof fn lemma_lookup_ident_none_distinct(sq: Seq<(Keyword, i64)>, e: i64)
    requires
        lookup_ident(sq, e) is None,
    ensures
        forall|p: int| 0 <= p < sq.len() ==> (#[trigger] sq[p]).1 != e,
    decreases sq.len(),
{
    if sq.len() > 0 {
        lemma_lookup_ident_none_distinct(sq.drop_first(), e);
        assert forall|p: int| 0 <= p < sq.len() implies (#[trigger] sq[p]).1 != e by {
            if p > 0 {
                assert(sq.drop_first()[p - 1] == sq[p]);
            }
        }
    }
}

/// An entid no entry carries cannot be looked up.
proof fn lemma_all_distinct_lookup_ident_none(sq: Seq<(Keyword, i64)>, e: i64)
    requires
        forall|p: int| 0 <= p < sq.len() ==> (#[trigger] sq[p]).1 != e,
    ensures
        lookup_ident(sq, e) is None,
    decreases sq.len(),
{
    if sq.len() > 0 {
        assert(forall|p: int|
            0 <= p < sq.drop_first().len() ==> #[trigger] sq.drop_first()[p] == sq[p + 1]);
        lemma_all_distinct_lookup_ident_none(sq.drop_first(), e);
    }
}

/// A successful entid lookup has a witness entry.
proof fn lemma_lookup_entid_witness(sq: Seq<(Keyword, i64)>, k: (Seq<char>, Seq<char>), e: i64)
    requires
        lookup_entid(sq, k) == Some(e),
    ensures
        exists|i: int| 0 <= i < sq.len() && (#[trigger] sq[i]).0@ == k && sq[i].1 == e,
    decreases sq.len(),
{
    if sq.len() > 0 {
        if sq[0].0@ == k {
            assert(sq[0].0@ == k && sq[0].1 == e);
        } else {
            lemma_lookup_entid_witness(sq.drop_first(), k, e);
            let j = choose|j: int|
                0 <= j < sq.drop_first().len() && (#[trigger] sq.drop_first()[j]).0@ == k
                    && sq.drop_first()[j].1 == e;
            assert(sq[j + 1] == sq.drop_first()[j]);
        }
    }
}

/// When entids are pairwise distinct, an entry's keyword is what the
/// entid looks up to.
proof fn lemma_lookup_ident_found(sq: Seq<(Keyword, i64)>, e: i64, i: int)
    requires
        0 <= i < sq.len(),
        sq[i].1 == e,
        forall|a: int, b: int|
            0 <= a < b < sq.len() ==> (#[trigger] sq[a]).1 != (#[trigger] sq[b]).1,
    ensures
        lookup_ident(sq, e) == Some(sq[i].0@),
    decreases sq.len(),
{
    if sq[0].1 == e {
        assert(i == 0);
    } else {
        assert(i > 0);
        assert(forall|a: int, b: int|
            0 <= a < b < sq.drop_first().len() ==> (#[trigger] sq.drop_first()[a]).1 != (
            #[trigger] sq.drop_first()[b]).1) by {
            assert(forall|a: int|
                0 <= a < sq.drop_first().len() ==> #[trigger] sq.drop_first()[a] == sq[a + 1]);
        }
        assert(sq.drop_first()[i - 1] == sq[i]);
        lemma_lookup_ident_found(sq.drop_first(), e, i - 1);
    }
}

impl Schema {
    /// Rebuild the cached list of component attributes from the map.
    pub fn update_component_attributes(&mut self)
        ensures
            final(self).ident_map == old(self).ident_map,
            final(self).attribute_map == old(self).attribute_map,
            final(self).component_attributes@ == spec_component_attributes(
                old(self).attribute_map@,
            ),
    {
        let ghost sq = self.attribute_map@;
        let mut comps: Vec<i64> = Vec::new();
        let mut i: usize = 0;
        while i < self.attribute_map.len()
            invariant
                i <= sq.len(),
                sq == self.attribute_map@,
                comps@ == spec_component_attributes(sq.take(i as int)),
            decreases sq.len() - i,
        {
            let entry = &self.attribute_map[i];
            if entry.1.component {
                comps.push(entry.0);
            }
            proof {
                assert(sq.take(i as int + 1).drop_last() =~= sq.take(i as int));
                assert(sq.take(i as int + 1).last() == sq[i as int]);
                if sq[i as int].1.component {
                    assert(comps@ =~= spec_component_attributes(sq.take(i as int + 1)));
                } else {
                    assert(comps@ =~= spec_component_attributes(sq.take(i as int + 1)));
                }
            }
            i += 1;
        }
        proof {
            assert(sq.take(i as int) =~= sq);
        }
        self.component_attributes = comps;
    }

    /// Create a valid schema from the constituent maps: validate the
    /// attributes, then cache the component attributes.
    pub fn from_ident_map_and_attribute_map(
        ident_map: Vec<(Keyword, i64)>,
        attribute_map: Vec<(i64, Attribute)>,
    ) -> (r: Result<Schema, CoreError>)
        ensures
            r is Ok <==> attribute_map_error(ident_map@, attribute_map@) is None,
            r matches Ok(s) ==> (s.ident_map@ == ident_map@ && s.attribute_map@ == attribute_map@
                && s.component_attributes@ == spec_component_attributes(attribute_map@)),
            r matches Err(e) ==> (e matches CoreError::BadSchemaAssertion(m) && Some(m@)
                == attribute_map_error(ident_map@, attribute_map@)),
    {
        match validate_attribute_map(&ident_map, &attribute_map) {
            Ok(()) => {
                let mut s = Schema { ident_map, attribute_map, component_attributes: Vec::new() };
                s.update_component_attributes();
                Ok(s)
            },
            Err(e) => Err(e),
        }
    }
}

/// The outcome of resolving symbolic triples: the entid triples, or the
/// printed form of the first keyword the registry does not know.
pub enum TriplesOut {
    TriplesGo(Seq<(i64, i64, TypedValue)>),
    TriplesFail(Seq<char>),
}

/// Resolve symbolic triples to entid triples through the registry,
/// front to back, appending to `acc`; an assertion's entity keyword is
/// looked up before its attribute keyword.
pub open spec fn resolve_triples(
    idents: Seq<(Keyword, i64)>,
    acc: Seq<(i64, i64, TypedValue)>,
    ts: Seq<(Keyword, Keyword, TypedValue)>,
) -> TriplesOut
    decreases ts.len(),
{
    if ts.len() == 0 {
        TriplesOut::TriplesGo(acc)
    } else {
        match lookup_entid(idents, ts[0].0@) {
            None => TriplesOut::TriplesFail(keyword_rep(ts[0].0@)),
            Some(e) => match lookup_entid(idents, ts[0].1@) {
                None => TriplesOut::TriplesFail(keyword_rep(ts[0].1@)),
                Some(a) => resolve_triples(idents, acc.push((e, a, ts[0].2)), ts.drop_first()),
            },
        }
    }
}

impl Schema {
    /// Turn symbolic triples `(:ident, :key, value)` into a schema: the
    /// registry resolves the keywords, the metadata assertions install
    /// the attributes, and the result is validated.
    #[verifier::loop_isolation(false)]
    pub fn from_ident_map_and_triples(
        ident_map: Vec<(Keyword, i64)>,
        assertions: Vec<(Keyword, Keyword, TypedValue)>,
    ) -> (r: Result<Schema, CoreError>)
        ensures
            match resolve_triples(ident_map@, Seq::empty(), assertions@) {
                TriplesOut::TriplesFail(msg) => r matches Err(e) && (e
                    matches CoreError::UnrecognizedIdent(t) && t@ == msg),
                TriplesOut::TriplesGo(ets) => match crate::metadata::apply_entities(
                    Seq::empty(),
                    Seq::empty(),
                    Seq::empty(),
                    ets,
                    crate::metadata::collect_entities(Seq::empty(), ets),
                ) {
                    None => r matches Err(e) && e matches CoreError::BadSchemaAssertion(_),
                    Some((m2, inst, alt)) => match attribute_map_error(ident_map@, m2) {
                        Some(msg) => r matches Err(e) && e matches CoreError::BadSchemaAssertion(m)
                            && m@ == msg,
                        None => r matches Ok(s) && s.ident_map@ == ident_map@ && s.attribute_map@
                            == m2 && s.component_attributes@ == spec_component_attributes(m2),
                    },
                },
            },
    {
        let ghost ts = assertions@;
        let mut entid_assertions: Vec<(i64, i64, TypedValue)> = Vec::new();
        let mut i: usize = 0;
        proof {
            assert(ts.skip(0) =~= ts);
        }
        let n = assertions.len();
        let mut rest = assertions;
        // Consume the symbolic triples front to back.
        while i < n
            invariant
                i <= ts.len(),
                n == ts.len(),
                rest@ == ts.skip(i as int),
                resolve_triples(ident_map@, Seq::empty(), ts) == resolve_triples(
                    ident_map@,
                    entid_assertions@,
                    ts.skip(i as int),
                ),
            decreases n - i,
        {
            proof {
                assert(ts.skip(i as int)[0] == ts[i as int]);
                assert(ts.skip(i as int).drop_first() =~= ts.skip(i as int + 1));
            }
            let (symbolic_ident, symbolic_attr, value) = rest.remove(0);
            proof {
                assert(symbolic_ident == ts[i as int].0);
                assert(symbolic_attr == ts[i as int].1);
            }
            let ident = match lookup_entid_exec(&ident_map, &symbolic_ident) {
                Some(e) => e,
                None => {
                    proof {
                        assert(resolve_triples(
                            ident_map@,
                            entid_assertions@,
                            ts.skip(i as int),
                        ) == TriplesOut::TriplesFail(keyword_rep(symbolic_ident@)));
                    }
                    return Err(
                        CoreError::UnrecognizedIdent(render_keyword(&symbolic_ident)),
                    );
                },
            };
            let attr = match lookup_entid_exec(&ident_map, &symbolic_attr) {
                Some(e) => e,
                None => {
                    proof {
                        assert(resolve_triples(
                            ident_map@,
                            entid_assertions@,
                            ts.skip(i as int),
                        ) == TriplesOut::TriplesFail(keyword_rep(symbolic_attr@)));
                    }
                    return Err(CoreError::UnrecognizedIdent(render_keyword(&symbolic_attr)));
                },
            };
            entid_assertions.push((ident, attr, value));
            i += 1;
        }
        proof {
            assert(ts.skip(i as int) =~= Seq::<(Keyword, Keyword, TypedValue)>::empty());
        }

        let mut schema = match Schema::from_ident_map_and_attribute_map(ident_map, Vec::new()) {
            Ok(s) => s,
            Err(e) => {
                proof {
                    assert(false);
                }
                return Err(e);
            },
        };
        match crate::metadata::update_attribute_map_from_entid_triples(
            &mut schema.attribute_map,
            &entid_assertions,
        ) {
            Ok(_) => {},
            Err(e) => {
                return Err(e);
            },
        }
        match validate_attribute_map(&schema.ident_map, &schema.attribute_map) {
            Ok(()) => {},
            Err(e) => {
                return Err(e);
            },
        }
        // Rebuild the cached component attributes.
        schema.update_component_attributes();
        Ok(schema)
    }
}

/// Free-standing registry lookup over an ident map.
pub(crate) fn lookup_entid_exec(ident_map: &Vec<(Keyword, i64)>, ident: &Keyword) -> (r: Option<
    i64,
>)
    ensures
        r == lookup_entid(ident_map@, ident@),
{
    let ghost s = ident_map@;
    let mut i: usize = 0;
    proof {
        assert(s.skip(0) =~= s);
    }
    while i < ident_map.len()
        invariant
            i <= s.len(),
            s == ident_map@,
            lookup_entid(s, ident@) == lookup_entid(s.skip(i as int), ident@),
        decreases s.len() - i,
    {
        proof {
            assert(s.skip(i as int)[0] == s[i as int]);
        }
        let entry = &ident_map[i];
        if entry.0.same(ident) {
            return Some(entry.1);
        }
        proof {
            assert(s.skip(i as int).drop_first() =~= s.skip(i as int + 1));
        }
        i += 1;
    }
    proof {
        assert(s.skip(i as int) =~= Seq::<(Keyword, i64)>::empty());
    }
    None
}

/// Schema-directed type checking and coercion.
pub trait SchemaTypeChecking {
    /// The whole relation between a raw value, an expected type, and the
    /// checker's verdict.
    spec fn coerces(&self, value: RawValue, value_type: ValueType, r: Result<
        TypedValue,
        CoreError,
    >) -> bool;

    /// Either assert that the given raw value is in the expected type's
    /// value set, or (in limited cases) coerce it there.
    fn to_typed_value(&self, value: RawValue, value_type: ValueType) -> (r: Result<
        TypedValue,
        CoreError,
    >)
        ensures
            self.coerces(value, value_type, r),
    ;
}

/// The verdict is `BadValuePair` carrying the offending value and the
/// expected type.
pub open spec fn coercion_refused(
    r: Result<TypedValue, CoreError>,
    value: RawValue,
    value_type: ValueType,
) -> bool {
    r matches Err(e) && e matches CoreError::BadValuePair(v, t) && v == value && t == value_type
}

/// What schema-directed coercion returns: most types pass their own
/// values through unchanged; `Ref` additionally accepts a `Long` as an
/// entid and a `Keyword` that the registry resolves; everything else is
/// a `BadValuePair`.
pub open spec fn spec_to_typed_value(
    s: Schema,
    value: RawValue,
    value_type: ValueType,
    r: Result<TypedValue, CoreError>,
) -> bool {
    match value_type {
        ValueType::Boolean => match value {
            RawValue::Boolean(b) => r matches Ok(tv) && tv@ == Value::Boolean(b),
            _ => coercion_refused(r, value, value_type),
        },
        ValueType::Long => match value {
            RawValue::Long(n) => r matches Ok(tv) && tv@ == Value::Long(n as int),
            _ => coercion_refused(r, value, value_type),
        },
        ValueType::Double => match value {
            RawValue::Double(bits) => r matches Ok(tv) && tv@ == Value::Double(bits),
            _ => coercion_refused(r, value, value_type),
        },
        ValueType::String => match value {
            RawValue::Text(t) => r matches Ok(tv) && tv@ == Value::Text(t@),
            _ => coercion_refused(r, value, value_type),
        },
        ValueType::Uuid => match value {
            RawValue::Uuid(u) => r matches Ok(tv) && tv@ == Value::Uuid(u),
            _ => coercion_refused(r, value, value_type),
        },
        ValueType::Instant => match value {
            RawValue::Instant(t) => r matches Ok(tv) && tv@ == Value::Instant(t as int),
            _ => coercion_refused(r, value, value_type),
        },
        ValueType::Keyword => match value {
            RawValue::Keyword(k) => r matches Ok(tv) && tv@ == Value::Keyword(k@),
            _ => coercion_refused(r, value, value_type),
        },
        ValueType::Bytes => match value {
            RawValue::Bytes(b) => r matches Ok(tv) && tv@ == Value::Bytes(b@),
            _ => coercion_refused(r, value, value_type),
        },
        ValueType::Ref => match value {
            RawValue::Long(n) => r matches Ok(tv) && tv@ == Value::Ref(n as int),
            RawValue::Keyword(k) => match lookup_entid(s.ident_map@, k@) {
                Some(e) => r matches Ok(tv) && tv@ == Value::Ref(e as int),
                None => r matches Err(err) && err matches CoreError::UnrecognizedIdent(t) && t@
                    == keyword_rep(k@),
            },
            _ => coercion_refused(r, value, value_type),
        },
    }
}

/// What coercion yields, as a function to the model of the value:
/// `None` exactly when the checker refuses the pair.
pub open spec fn coerced_view(
    idents: Seq<(Keyword, i64)>,
    value: RawValue,
    value_type: ValueType,
) -> Option<Value> {
    match value_type {
        ValueType::Boolean => match value {
            RawValue::Boolean(b) => Some(Value::Boolean(b)),
            _ => None,
        },
        ValueType::Long => match value {
            RawValue::Long(n) => Some(Value::Long(n as int)),
            _ => None,
        },
        ValueType::Double => match value {
            RawValue::Double(bits) => Some(Value::Double(bits)),
            _ => None,
        },
        ValueType::String => match value {
            RawValue::Text(t) => Some(Value::Text(t@)),
            _ => None,
        },
        ValueType::Uuid => match value {
            RawValue::Uuid(u) => Some(Value::Uuid(u)),
            _ => None,
        },
        ValueType::Instant => match value {
            RawValue::Instant(t) => Some(Value::Instant(t as int)),
            _ => None,
        },
        ValueType::Keyword => match value {
            RawValue::Keyword(k) => Some(Value::Keyword(k@)),
            _ => None,
        },
        ValueType::Bytes => match value {
            RawValue::Bytes(b) => Some(Value::Bytes(b@)),
            _ => None,
        },
        ValueType::Ref => match value {
            RawValue::Long(n) => Some(Value::Ref(n as int)),
            RawValue::Keyword(k) => match lookup_entid(idents, k@) {
                Some(e) => Some(Value::Ref(e as int)),
                None => None,
            },
            _ => None,
        },
    }
}

/// The coercion relation, read as a function: the checker succeeds
/// exactly when `coerced_view` is defined, and returns a value with
/// that model.
pub proof fn lemma_coercion_functional(
    s: Schema,
    value: RawValue,
    value_type: ValueType,
    r: Result<TypedValue, CoreError>,
)
    requires
        spec_to_typed_value(s, value, value_type, r),
    ensures
        match coerced_view(s.ident_map@, value, value_type) {
            Some(v) => r matches Ok(tv) && tv@ == v,
            None => r is Err,
        },
{
}

/// Every value the type checker accepts belongs to the expected type:
/// `matches_type` holds of the result.
pub proof fn lemma_coercion_matches_type(
    s: Schema,
    value: RawValue,
    value_type: ValueType,
    r: Result<TypedValue, CoreError>,
)
    requires
        spec_to_typed_value(s, value, value_type, r),
    ensures
        r matches Ok(tv) ==> crate::values::spec_matches_type(tv@, value_type),
{
}

impl SchemaTypeChecking for Schema {
    open spec fn coerces(&self, value: RawValue, value_type: ValueType, r: Result<
        TypedValue,
        CoreError,
    >) -> bool {
        spec_to_typed_value(*self, value, value_type, r)
    }

    fn to_typed_value(&self, value: RawValue, value_type: ValueType) -> (r: Result<
        TypedValue,
        CoreError,
    >) {
        match value_type {
            ValueType::Boolean => match value {
                RawValue::Boolean(b) => Ok(TypedValue::Boolean(b)),
                v => Err(CoreError::BadValuePair(v, value_type)),
            },
            ValueType::Long => match value {
                RawValue::Long(n) => Ok(TypedValue::Long(n)),
                v => Err(CoreError::BadValuePair(v, value_type)),
            },
            ValueType::Double => match value {
                RawValue::Double(bits) => Ok(TypedValue::Double(bits)),
                v => Err(CoreError::BadValuePair(v, value_type)),
            },
            ValueType::String => match value {
                RawValue::Text(t) => Ok(TypedValue::String(t)),
                v => Err(CoreError::BadValuePair(v, value_type)),
            },
            ValueType::Uuid => match value {
                RawValue::Uuid(u) => Ok(TypedValue::Uuid(u)),
                v => Err(CoreError::BadValuePair(v, value_type)),
            },
            ValueType::Instant => match value {
                RawValue::Instant(t) => Ok(TypedValue::Instant(t)),
                v => Err(CoreError::BadValuePair(v, value_type)),
            },
            ValueType::Keyword => match value {
                RawValue::Keyword(k) => Ok(TypedValue::Keyword(k)),
                v => Err(CoreError::BadValuePair(v, value_type)),
            },
            ValueType::Bytes => match value {
                RawValue::Bytes(b) => Ok(TypedValue::Bytes(b)),
                v => Err(CoreError::BadValuePair(v, value_type)),
            },
            ValueType::Ref => match value {
                RawValue::Long(n) => Ok(TypedValue::Ref(n)),
                RawValue::Keyword(k) => match self.get_entid(&k) {
                    Some(e) => Ok(TypedValue::Ref(e)),
                    None => Err(CoreError::UnrecognizedIdent(render_keyword(&k))),
                },
                v => Err(CoreError::BadValuePair(v, value_type)),
            },
        }
    }
}

} // verus!
