//! Structural link relations: settings that name relations and their tide policy.

use vstd::prelude::*;

use crate::address::EntryAddress;
use crate::text::{chars_of, str_eq, has_char, slice_has_char};
use crate::entry::{name_field, desc_field, meta_field, frozen_field};

verus! {

/// Direction of one structural edge, seen from the entry that holds the link.
#[derive(Clone, Copy, Debug, PartialEq, Eq, Structural)]
pub enum StructuralEdgeDirection {
    /// From the linking entry to its target.
    To,
    /// From the target back to the linking entry.
    From,
    /// Between entries that share one target.
    Clique,
}

impl StructuralEdgeDirection {
    /// Lower-case label of this direction.
    pub open spec fn spec_label(self) -> Seq<char> {
        match self {
            StructuralEdgeDirection::To => seq!['t', 'o'],
            StructuralEdgeDirection::From => seq!['f', 'r', 'o', 'm'],
            StructuralEdgeDirection::Clique => seq!['c', 'l', 'i', 'q', 'u', 'e'],
        }
    }

    /// Lower-case label of this direction.
    pub fn label(self) -> (r: String)
        ensures
            r@ == self.spec_label(),
    {
        let mut out = String::new();
        match self {
            StructuralEdgeDirection::To => {
                crate::text::push_char(&mut out, 't');
                crate::text::push_char(&mut out, 'o');
            },
            StructuralEdgeDirection::From => {
                crate::text::push_char(&mut out, 'f');
                crate::text::push_char(&mut out, 'r');
                crate::text::push_char(&mut out, 'o');
                crate::text::push_char(&mut out, 'm');
            },
            StructuralEdgeDirection::Clique => {
                crate::text::push_char(&mut out, 'c');
                crate::text::push_char(&mut out, 'l');
                crate::text::push_char(&mut out, 'i');
                crate::text::push_char(&mut out, 'q');
                crate::text::push_char(&mut out, 'u');
                crate::text::push_char(&mut out, 'e');
            },
        }
        assert(out@ =~= self.spec_label());
        out
    }

    /// Parse a direction from its label.
    pub fn parse(raw: &str) -> (r: Option<Self>)
        ensures
            r matches Some(d) ==> d.spec_label() == raw@,
            r is None ==> (forall|d: Self| d.spec_label() != raw@),
    {
        let chars = chars_of(raw);
        let to = StructuralEdgeDirection::To.label();
        let from = StructuralEdgeDirection::From.label();
        let clique = StructuralEdgeDirection::Clique.label();
        if str_eq(raw, to.as_str()) {
            Some(StructuralEdgeDirection::To)
        } else if str_eq(raw, from.as_str()) {
            Some(StructuralEdgeDirection::From)
        } else if str_eq(raw, clique.as_str()) {
            Some(StructuralEdgeDirection::Clique)
        } else {
            assert forall|d: Self| d.spec_label() != raw@ by {
                match d {
                    StructuralEdgeDirection::To => {},
                    StructuralEdgeDirection::From => {},
                    StructuralEdgeDirection::Clique => {},
                }
            }
            None
        }
    }
}

/// Which tide lines ripple along one edge direction.
#[derive(Clone, Copy, Debug, Default, PartialEq, Eq, Structural)]
pub struct StructuralRippleSettings {
    /// Ripple from lake changes.
    pub lake: bool,
    /// Ripple from frost changes.
    pub frost: bool,
}

impl StructuralRippleSettings {
    /// Settings with the given lake and frost ripples.
    pub fn new(lake: bool, frost: bool) -> (r: Self)
        ensures
            r == (StructuralRippleSettings { lake, frost }),
    {
        StructuralRippleSettings { lake, frost }
    }
}

/// Tide policy of one structural relation, by edge direction.
#[derive(Clone, Copy, Debug, Default, PartialEq, Eq, Structural)]
pub struct StructuralTideSettings {
    /// Outgoing edges.
    pub to: StructuralRippleSettings,
    /// Incoming edges.
    pub from: StructuralRippleSettings,
    /// Shared-target edges.
    pub clique: StructuralRippleSettings,
}

impl StructuralTideSettings {
    /// Settings with the given per-direction ripples.
    pub fn new(
        to: StructuralRippleSettings,
        from: StructuralRippleSettings,
        clique: StructuralRippleSettings,
    ) -> (r: Self)
        ensures
            r == (StructuralTideSettings { to, from, clique }),
    {
        StructuralTideSettings { to, from, clique }
    }

    /// No direction ripples on any line.
    pub open spec fn spec_is_empty(self) -> bool {
        !self.to.lake && !self.to.frost && !self.from.lake && !self.from.frost && !self.clique.lake
            && !self.clique.frost
    }

    /// Whether no direction ripples on any line.
    pub fn is_empty(&self) -> (r: bool)
        ensures
            r == self.spec_is_empty(),
    {
        !self.to.lake && !self.to.frost && !self.from.lake && !self.from.frost && !self.clique.lake
            && !self.clique.frost
    }
}

/// One configured structural relation: its metadata field and documenting entry.
#[derive(Debug)]
pub struct StructuralRelation {
    /// Metadata field name of the relation.
    pub field: String,
    /// Entry that documents the relation, when configured.
    pub entry: Option<EntryAddress>,
}

/// View of an optional address.
pub open spec fn opt_address_view(o: Option<EntryAddress>) -> Option<Seq<char>> {
    match o {
        Some(e) => Some(e@),
        None => None,
    }
}

/// Spec view of one relation.
pub open spec fn relation_view(r: StructuralRelation) -> (Seq<char>, Option<Seq<char>>) {
    (r.field@, opt_address_view(r.entry))
}

/// Configured structural relations in configuration order.
///
/// Invariant: no field is configured twice.
#[derive(Debug)]
pub struct StructuralSettings {
    relations: Vec<StructuralRelation>,
}

/// Fields named in a relation sequence.
pub open spec fn relation_fields(rs: Seq<(Seq<char>, Option<Seq<char>>)>) -> Seq<Seq<char>> {
    rs.map_values(|r: (Seq<char>, Option<Seq<char>>)| r.0)
}

/// No field occurs twice.
pub open spec fn unique_texts(s: Seq<Seq<char>>) -> bool {
    forall|i: int, j: int| 0 <= i < s.len() && 0 <= j < s.len() && i != j ==> s[i] != s[j]
}

impl View for StructuralSettings {
    type V = Seq<(Seq<char>, Option<Seq<char>>)>;

    closed spec fn view(&self) -> Self::V {
        self.relations@.map_values(|r: StructuralRelation| relation_view(r))
    }
}

/// Position of `field` among the relations, if configured.
pub open spec fn relation_index(rs: Seq<(Seq<char>, Option<Seq<char>>)>, field: Seq<char>) -> int
    decreases rs.len(),
{
    if rs.len() == 0 {
        -1
    } else if rs.last().0 == field {
        rs.len() - 1
    } else {
        relation_index(rs.drop_last(), field)
    }
}

pub proof fn lemma_relation_index(rs: Seq<(Seq<char>, Option<Seq<char>>)>, field: Seq<char>)
    ensures
        -1 <= relation_index(rs, field) < rs.len(),
        relation_index(rs, field) >= 0 ==> rs[relation_index(rs, field)].0 == field,
        relation_index(rs, field) == -1 <==> (forall|i: int| 0 <= i < rs.len() ==> rs[i].0 != field),
    decreases rs.len(),
{
    if rs.len() > 0 {
        lemma_relation_index(rs.drop_last(), field);
        assert forall|i: int| 0 <= i < rs.len() - 1 implies rs[i] == rs.drop_last()[i] by {}
    }
}

/// Whether `field` is a configured relation.
pub open spec fn has_relation(rs: Seq<(Seq<char>, Option<Seq<char>>)>, field: Seq<char>) -> bool {
    exists|i: int| 0 <= i < rs.len() && rs[i].0 == field
}

/// Relations after inserting each item in order: replaced in place when configured,
/// appended otherwise.
pub open spec fn relations_inserted(
    rs: Seq<(Seq<char>, Option<Seq<char>>)>,
    items: Seq<(Seq<char>, Option<Seq<char>>)>,
) -> Seq<(Seq<char>, Option<Seq<char>>)>
    decreases items.len(),
{
    if items.len() == 0 {
        rs
    } else {
        let acc = relations_inserted(rs, items.drop_last());
        let it = items.last();
        let i = relation_index(acc, it.0);
        if i >= 0 {
            acc.update(i, it)
        } else {
            acc.push(it)
        }
    }
}

impl StructuralSettings {
    #[verifier::type_invariant]
    closed spec fn well_formed(self) -> bool {
        unique_texts(relation_fields(self@))
    }

    /// Settings with no relation.
    pub fn new() -> (r: Self)
        ensures
            r@ == Seq::<(Seq<char>, Option<Seq<char>>)>::empty(),
    {
        let r = StructuralSettings { relations: Vec::new() };
        assert(r@ =~= Seq::<(Seq<char>, Option<Seq<char>>)>::empty());
        r
    }

    /// Settings with the given relations added in order; a later relation replaces the
    /// entry of an earlier one with the same field.
    pub fn from_relations(relations: Vec<(String, Option<EntryAddress>)>) -> (r: Self)
        ensures
            r@ == relations_inserted(
                Seq::empty(),
                relations@.map_values(|p: (String, Option<EntryAddress>)| (p.0@, opt_address_view(p.1))),
            ),
    {
        let ghost items = relations@.map_values(|p: (String, Option<EntryAddress>)| (p.0@, opt_address_view(p.1)));
        let mut settings = StructuralSettings::new();
        let mut i: usize = 0;
        assert(items.take(0) =~= Seq::<(Seq<char>, Option<Seq<char>>)>::empty());
        while i < relations.len()
            invariant
                i <= items.len(),
                items == relations@.map_values(|p: (String, Option<EntryAddress>)| (p.0@, opt_address_view(p.1))),
                settings@ == relations_inserted(Seq::empty(), items.take(i as int)),
            decreases items.len() - i,
        {
            assert(items.take(i + 1).drop_last() =~= items.take(i as int));
            assert(items.take(i + 1).last() == items[i as int]);
            let entry = match &relations[i].1 {
                Some(e) => Some(e.clone()),
                None => None,
            };
            settings.insert(relations[i].0.as_str(), entry);
            i = i + 1;
        }
        assert(items.take(i as int) =~= items);
        settings
    }

    /// Add one relation, or replace the entry of a configured one in place.
    pub fn insert(&mut self, field: &str, entry: Option<EntryAddress>)
        ensures
            ({
                let added = (field@, opt_address_view(entry));
                let i = relation_index(old(self)@, field@);
                if i >= 0 {
                    final(self)@ == old(self)@.update(i, added)
                } else {
                    final(self)@ == old(self)@.push(added)
                }
            }),
    {
        proof {
            use_type_invariant(&*self);
            lemma_relation_index(self@, field@);
        }
        let ghost before = self@;
        let ghost added = (field@, opt_address_view(entry));
        let n = self.relations.len();
        let mut i: usize = 0;
        while i < n
            invariant
                n == self.relations@.len(),
                i <= n,
                self@ == before,
                before == old(self)@,
                added == (field@, opt_address_view(entry)),
                unique_texts(relation_fields(before)),
                forall|j: int| 0 <= j < i ==> #[trigger] before[j].0 != field@,
            decreases n - i,
        {
            if str_eq(self.relations[i].field.as_str(), field) {
                proof {
                    lemma_unique_index(before, field@, i as int);
                }
                let mut relations: Vec<StructuralRelation> = Vec::new();
                std::mem::swap(&mut relations, &mut self.relations);
                let ghost old_relations = relations@;
                assert(old_relations.map_values(|r: StructuralRelation| relation_view(r)) == before);
                let replacement = StructuralRelation { field: crate::text::owned(field), entry };
                assert(replacement.field@ == field@);
                assert(replacement.entry == entry);
                assert(relation_view(replacement) == added);
                relations.set(i, replacement);
                assert(relations@ == old_relations.update(i as int, replacement));
                assert(relations@.map_values(|r: StructuralRelation| relation_view(r))
                    =~= before.update(i as int, added));
                assert(relation_fields(before.update(i as int, added)) =~= relation_fields(before));
                self.relations = relations;
                return ;
            }
            i = i + 1;
        }
        let mut relations: Vec<StructuralRelation> = Vec::new();
        std::mem::swap(&mut relations, &mut self.relations);
        relations.push(StructuralRelation { field: crate::text::owned(field), entry });
        assert(relations@.map_values(|r: StructuralRelation| relation_view(r)) =~= before.push(added));
        assert(relation_fields(before.push(added)) =~= relation_fields(before).push(field@));
        assert(unique_texts(relation_fields(before.push(added))));
        self.relations = relations;
    }

    /// Whether `field` is a configured relation.
    pub fn contains_field(&self, field: &str) -> (r: bool)
        ensures
            r == has_relation(self@, field@),
    {
        let mut i: usize = 0;
        while i < self.relations.len()
            invariant
                i <= self@.len(),
                forall|j: int| 0 <= j < i ==> #[trigger] self@[j].0 != field@,
            decreases self@.len() - i,
        {
            if str_eq(self.relations[i].field.as_str(), field) {
                assert(self@[i as int].0 == field@);
                return true;
            }
            i = i + 1;
        }
        false
    }

    /// Documenting entry of a configured relation.
    pub fn entry_for_field(&self, field: &str) -> (r: Option<&EntryAddress>)
        ensures
            ({
                let i = relation_index(self@, field@);
                if i >= 0 {
                    match self@[i].1 {
                        Some(e) => r matches Some(a) && a@ == e,
                        None => r is None,
                    }
                } else {
                    r is None
                }
            }),
    {
        proof {
            use_type_invariant(self);
            lemma_relation_index(self@, field@);
        }
        let mut i: usize = 0;
        while i < self.relations.len()
            invariant
                i <= self@.len(),
                unique_texts(relation_fields(self@)),
                forall|j: int| 0 <= j < i ==> #[trigger] self@[j].0 != field@,
            decreases self@.len() - i,
        {
            if str_eq(self.relations[i].field.as_str(), field) {
                proof {
                    lemma_unique_index(self@, field@, i as int);
                }
                return match &self.relations[i].entry {
                    Some(e) => Some(e),
                    None => None,
                };
            }
            i = i + 1;
        }
        None
    }

    /// Configured relations in order.
    pub fn relations(&self) -> (r: &[StructuralRelation])
        ensures
            r@.map_values(|x: StructuralRelation| relation_view(x)) == self@,
    {
        self.relations.as_slice()
    }
}

/// In a field-unique relation sequence, the field found at `i` is the indexed one.
pub proof fn lemma_unique_index(rs: Seq<(Seq<char>, Option<Seq<char>>)>, field: Seq<char>, i: int)
    requires
        unique_texts(relation_fields(rs)),
        0 <= i < rs.len(),
        rs[i].0 == field,
    ensures
        relation_index(rs, field) == i,
    decreases rs.len(),
{
    if i < rs.len() - 1 {
        assert(relation_fields(rs)[i] == field);
        assert(relation_fields(rs)[rs.len() - 1] == rs.last().0);
        assert(relation_fields(rs.drop_last()) =~= relation_fields(rs).drop_last());
        lemma_unique_index(rs.drop_last(), field, i);
    }
}


/// Why a name cannot be a structural relation field.
#[derive(Clone, Copy, Debug, PartialEq, Eq, Structural)]
pub enum FieldNameError {
    /// The name is empty or holds a line break or a comma.
    Malformed,
    /// The name is one of the fields that entry metadata reserves.
    Reserved,
}

/// `name` is empty or holds a line break or a comma.
pub open spec fn malformed_field_name(name: Seq<char>) -> bool {
    name.len() == 0 || has_char(name, '\n') || has_char(name, '\r') || has_char(name, ',')
}

/// `name` is a field that entry metadata reserves.
pub open spec fn reserved_field_name(name: Seq<char>) -> bool {
    name == name_field() || name == desc_field() || name == meta_field() || name == frozen_field()
}

/// Check that a name can be a structural relation field.
pub fn validate_structural_field_name(name: &str) -> (r: Result<(), FieldNameError>)
    ensures
        malformed_field_name(name@) ==> r == Err::<(), FieldNameError>(FieldNameError::Malformed),
        !malformed_field_name(name@) && reserved_field_name(name@) ==> r == Err::<(), FieldNameError>(
            FieldNameError::Reserved,
        ),
        !malformed_field_name(name@) && !reserved_field_name(name@) ==> r is Ok,
{
    let chars = chars_of(name);
    if chars.len() == 0 || slice_has_char(chars.as_slice(), '\n') || slice_has_char(
        chars.as_slice(),
        '\r',
    ) || slice_has_char(chars.as_slice(), ',') {
        return Err(FieldNameError::Malformed);
    }
    proof {
        reveal_strlit("name");
        reveal_strlit("desc");
        reveal_strlit("meta");
        reveal_strlit("frozen");
        assert("name"@ =~= name_field());
        assert("desc"@ =~= desc_field());
        assert("meta"@ =~= meta_field());
        assert("frozen"@ =~= frozen_field());
    }
    if str_eq(name, "name") || str_eq(name, "desc") || str_eq(name, "meta") || str_eq(
        name,
        "frozen",
    ) {
        return Err(FieldNameError::Reserved);
    }
    Ok(())
}

} // verus!
