//! Entries of a lake: typed metadata, structural links and Markdown prose.

use vstd::prelude::*;

use crate::address::{EntryAddress, EntryAddressError};
use crate::structural::StructuralTideSettings;
use crate::text::{owned, push_str, slice_has_char, str_eq};

verus! {

/// Views of a sequence of addresses.
pub open spec fn addresses_view(v: Seq<EntryAddress>) -> Seq<Seq<char>> {
    v.map_values(|a: EntryAddress| a@)
}

/// One reason why an entry is protected.
#[derive(Clone, Copy, Debug, PartialEq, Eq, Structural)]
pub enum FrozenReason {
    /// The entry matches the current frost snapshot.
    Reviewed,
    /// The entry is owned by crystallization.
    Managed,
}

/// Protection reasons of an entry, as the set of reasons it holds.
#[derive(Clone, Copy, Debug, PartialEq, Eq, Structural)]
pub struct FrozenMarker {
    reviewed: bool,
    managed: bool,
}

impl View for FrozenMarker {
    type V = Set<FrozenReason>;

    closed spec fn view(&self) -> Set<FrozenReason> {
        Set::new(
            |r: FrozenReason|
                (r == FrozenReason::Reviewed && self.reviewed) || (r == FrozenReason::Managed
                    && self.managed),
        )
    }
}

impl FrozenMarker {
    /// Marker holding exactly the given reasons.
    pub closed spec fn holding(reviewed: bool, managed: bool) -> FrozenMarker {
        FrozenMarker { reviewed, managed }
    }

    /// Whether the marker holds `reviewed`.
    pub closed spec fn spec_reviewed(self) -> bool {
        self.reviewed
    }

    /// Whether the marker holds `managed`.
    pub closed spec fn spec_managed(self) -> bool {
        self.managed
    }

    /// The marker holding some reasons holds exactly those reasons.
    pub proof fn lemma_holding_reasons(reviewed: bool, managed: bool)
        ensures
            FrozenMarker::holding(reviewed, managed).spec_reviewed() == reviewed,
            FrozenMarker::holding(reviewed, managed).spec_managed() == managed,
    {
    }

    /// Every marker is the one holding its own reasons.
    pub proof fn lemma_holding(self)
        ensures
            self == FrozenMarker::holding(self.spec_reviewed(), self.spec_managed()),
            self@.contains(FrozenReason::Reviewed) == self.spec_reviewed(),
            self@.contains(FrozenReason::Managed) == self.spec_managed(),
    {
    }

    /// Marker for a reviewed entry.
    pub fn reviewed() -> (r: Self)
        ensures
            r == FrozenMarker::holding(true, false),
            r.spec_reviewed() && !r.spec_managed(),
            r.spec_reasons() == seq![FrozenReason::Reviewed],
    {
        FrozenMarker { reviewed: true, managed: false }
    }

    /// Marker for a managed entry.
    pub fn managed() -> (r: Self)
        ensures
            r == FrozenMarker::holding(false, true),
            !r.spec_reviewed() && r.spec_managed(),
            r.spec_reasons() == seq![FrozenReason::Managed],
    {
        FrozenMarker { reviewed: false, managed: true }
    }

    /// Marker holding the given reasons, at least one of them.
    pub fn from_reasons(reviewed: bool, managed: bool) -> (r: Self)
        requires
            reviewed || managed,
        ensures
            r == FrozenMarker::holding(reviewed, managed),
            r.spec_reviewed() == reviewed && r.spec_managed() == managed,
    {
        FrozenMarker { reviewed, managed }
    }

    /// Whether this marker includes `reviewed`.
    pub fn is_reviewed(&self) -> (r: bool)
        ensures
            r == self.spec_reviewed(),
    {
        self.reviewed
    }

    /// Whether this marker includes `managed`.
    pub fn is_managed(&self) -> (r: bool)
        ensures
            r == self.spec_managed(),
    {
        self.managed
    }

    /// Add `reviewed` to this marker.
    pub fn insert_reviewed(&mut self)
        ensures
            *final(self) == FrozenMarker::holding(true, old(self).spec_managed()),
            final(self).spec_reviewed() && final(self).spec_managed() == old(self).spec_managed(),
    {
        self.reviewed = true;
    }

    /// Add `managed` to this marker.
    pub fn insert_managed(&mut self)
        ensures
            *final(self) == FrozenMarker::holding(old(self).spec_reviewed(), true),
            final(self).spec_managed() && final(self).spec_reviewed() == old(self).spec_reviewed(),
    {
        self.managed = true;
    }

    /// Remove `reviewed` from this marker; true when a reason remains.
    pub fn remove_reviewed(&mut self) -> (r: bool)
        ensures
            *final(self) == FrozenMarker::holding(false, old(self).spec_managed()),
            !final(self).spec_reviewed() && final(self).spec_managed() == old(self).spec_managed(),
            r == old(self).spec_managed(),
    {
        self.reviewed = false;
        self.managed
    }

    /// Reasons in canonical render order: `reviewed` before `managed`.
    pub open spec fn spec_reasons(self) -> Seq<FrozenReason> {
        let first = if self.spec_reviewed() {
            seq![FrozenReason::Reviewed]
        } else {
            Seq::empty()
        };
        if self.spec_managed() {
            first.push(FrozenReason::Managed)
        } else {
            first
        }
    }

    /// Reasons in canonical render order.
    pub fn reasons(&self) -> (r: Vec<FrozenReason>)
        ensures
            r@ == self.spec_reasons(),
    {
        let mut out: Vec<FrozenReason> = Vec::new();
        if self.reviewed {
            out.push(FrozenReason::Reviewed);
        }
        if self.managed {
            out.push(FrozenReason::Managed);
        }
        assert(out@ =~= self.spec_reasons());
        out
    }
}

/// Role that an entry declares for itself in its managed metadata.
#[derive(Clone, Copy, Debug, PartialEq, Eq, Structural)]
pub enum EntryMetaType {
    /// The entry defines a structural link relation.
    Relation,
    /// The entry defines an intrinsic metadata field.
    Intrinsic,
}

/// Sirno-managed metadata of one entry.
#[derive(Clone, Copy, Debug, PartialEq, Eq, Structural)]
pub struct EntryMeta {
    /// Freeze reasons protecting this entry file.
    pub frozen: Option<FrozenMarker>,
    /// Tide policy of a structural relation defined by this entry.
    pub tide: Option<StructuralTideSettings>,
    /// Role that the entry declares.
    pub entry_type: Option<EntryMetaType>,
}

impl EntryMeta {
    /// Managed metadata with nothing set.
    pub fn empty() -> (r: Self)
        ensures
            r == (EntryMeta { frozen: None, tide: None, entry_type: None }),
    {
        EntryMeta { frozen: None, tide: None, entry_type: None }
    }

    /// Whether neither a freeze marker nor a tide policy is set.
    pub fn is_empty(&self) -> (r: bool)
        ensures
            r == (self.frozen is None && self.tide is None),
    {
        self.frozen.is_none() && self.tide.is_none()
    }

    /// Whether the entry declares that it defines an intrinsic metadata field.
    pub fn is_intrinsic_field(&self) -> (r: bool)
        ensures
            r == (self.entry_type == Some(EntryMetaType::Intrinsic)),
    {
        match self.entry_type {
            Some(EntryMetaType::Intrinsic) => true,
            _ => false,
        }
    }

    /// Whether the entry declares that it defines a structural relation.
    pub fn is_structural_relation(&self) -> (r: bool)
        ensures
            r == (self.entry_type == Some(EntryMetaType::Relation)),
    {
        match self.entry_type {
            Some(EntryMetaType::Relation) => true,
            _ => false,
        }
    }
}

impl Default for EntryMeta {
    fn default() -> (r: Self)
        ensures
            r == (EntryMeta { frozen: None, tide: None, entry_type: None }),
    {
        EntryMeta::empty()
    }
}

/// View of one structural field: its name and target addresses.
pub type FieldView = (Seq<char>, Seq<Seq<char>>);

/// View of one stored field pair.
pub open spec fn field_pair_view(p: (String, Vec<EntryAddress>)) -> FieldView {
    (p.0@, addresses_view(p.1@))
}

/// Names of the fields, in order.
pub open spec fn field_names(s: Seq<FieldView>) -> Seq<Seq<char>> {
    s.map_values(|p: FieldView| p.0)
}

/// No field name occurs twice.
pub open spec fn unique_fields(s: Seq<FieldView>) -> bool {
    forall|i: int, j: int|
        0 <= i < s.len() && 0 <= j < s.len() && i != j ==> #[trigger] s[i].0 != #[trigger] s[j].0
}

/// Position of field `k`, or -1.
pub open spec fn field_index(s: Seq<FieldView>, k: Seq<char>) -> int
    decreases s.len(),
{
    if s.len() == 0 {
        -1
    } else if s.last().0 == k {
        s.len() - 1
    } else {
        field_index(s.drop_last(), k)
    }
}

pub proof fn lemma_field_index(s: Seq<FieldView>, k: Seq<char>)
    ensures
        -1 <= field_index(s, k) < s.len(),
        field_index(s, k) >= 0 ==> s[field_index(s, k)].0 == k,
        field_index(s, k) == -1 <==> (forall|i: int| 0 <= i < s.len() ==> s[i].0 != k),
    decreases s.len(),
{
    if s.len() > 0 {
        lemma_field_index(s.drop_last(), k);
        assert forall|i: int| 0 <= i < s.len() - 1 implies s[i] == s.drop_last()[i] by {}
    }
}

pub proof fn lemma_field_index_unique(s: Seq<FieldView>, k: Seq<char>, i: int)
    requires
        unique_fields(s),
        0 <= i < s.len(),
        s[i].0 == k,
    ensures
        field_index(s, k) == i,
    decreases s.len(),
{
    if i < s.len() - 1 {
        assert(s[s.len() - 1].0 != k);
        assert(unique_fields(s.drop_last()));
        lemma_field_index_unique(s.drop_last(), k, i);
    }
}

/// Targets of field `k`; empty when the field is absent.
pub open spec fn targets_of(s: Seq<FieldView>, k: Seq<char>) -> Seq<Seq<char>> {
    let i = field_index(s, k);
    if i >= 0 {
        s[i].1
    } else {
        Seq::empty()
    }
}

/// `s` with field `k` set to `v`: replaced in place, or appended when absent.
pub open spec fn set_field(s: Seq<FieldView>, k: Seq<char>, v: Seq<Seq<char>>) -> Seq<FieldView> {
    let i = field_index(s, k);
    if i >= 0 {
        s.update(i, (k, v))
    } else {
        s.push((k, v))
    }
}

/// `x` occurs among `targets`.
pub open spec fn has_target(targets: Seq<Seq<char>>, x: Seq<char>) -> bool {
    exists|j: int| 0 <= j < targets.len() && targets[j] == x
}

/// Each target equal to `old` replaced by `new`.
pub open spec fn rename_in(targets: Seq<Seq<char>>, old: Seq<char>, new: Seq<char>) -> Seq<Seq<char>> {
    targets.map_values(|t: Seq<char>| if t == old { new } else { t })
}

/// Fields rebuilt with field `old` renamed to `new`, as successive `set_field` calls.
pub open spec fn rebuild_renamed(s: Seq<FieldView>, old: Seq<char>, new: Seq<char>) -> Seq<FieldView>
    decreases s.len(),
{
    if s.len() == 0 {
        Seq::empty()
    } else {
        let last = s.last();
        let key = if last.0 == old {
            new
        } else {
            last.0
        };
        set_field(rebuild_renamed(s.drop_last(), old, new), key, last.1)
    }
}

/// Ordered structural link fields of one entry.
///
/// Invariant: no field name occurs twice.
#[derive(Debug)]
pub struct EntryStructuralFields {
    fields: Vec<(String, Vec<EntryAddress>)>,
}

impl View for EntryStructuralFields {
    type V = Seq<FieldView>;

    closed spec fn view(&self) -> Seq<FieldView> {
        self.fields@.map_values(|p: (String, Vec<EntryAddress>)| field_pair_view(p))
    }
}

pub proof fn lemma_set_field_unique(s: Seq<FieldView>, k: Seq<char>, v: Seq<Seq<char>>)
    requires
        unique_fields(s),
    ensures
        unique_fields(set_field(s, k, v)),
        field_index(set_field(s, k, v), k) >= 0,
        set_field(s, k, v)[field_index(set_field(s, k, v), k)] == (k, v),
{
    lemma_field_index(s, k);
    let r = set_field(s, k, v);
    let i = field_index(s, k);
    if i >= 0 {
        assert forall|a: int, b: int|
            0 <= a < r.len() && 0 <= b < r.len() && a != b implies #[trigger] r[a].0
            != #[trigger] r[b].0 by {
            if a != i && b != i {
                assert(s[a].0 != s[b].0);
            } else if a == i {
                assert(s[b].0 != s[i].0);
            } else {
                assert(s[a].0 != s[i].0);
            }
        }
        lemma_field_index_unique(r, k, i);
    } else {
        assert forall|a: int, b: int|
            0 <= a < r.len() && 0 <= b < r.len() && a != b implies #[trigger] r[a].0
            != #[trigger] r[b].0 by {
            if a < s.len() && b < s.len() {
                assert(s[a].0 != s[b].0);
            }
        }
        lemma_field_index_unique(r, k, s.len() as int);
    }
}

pub proof fn lemma_rebuild_unique(s: Seq<FieldView>, old: Seq<char>, new: Seq<char>)
    ensures
        unique_fields(rebuild_renamed(s, old, new)),
    decreases s.len(),
{
    if s.len() > 0 {
        lemma_rebuild_unique(s.drop_last(), old, new);
        let key = if s.last().0 == old {
            new
        } else {
            s.last().0
        };
        lemma_set_field_unique(rebuild_renamed(s.drop_last(), old, new), key, s.last().1);
    }
}

impl EntryStructuralFields {
    #[verifier::type_invariant]
    closed spec fn well_formed(self) -> bool {
        unique_fields(self@)
    }

    /// Fields with no entry.
    pub fn new() -> (r: Self)
        ensures
            r@ == Seq::<FieldView>::empty(),
    {
        let r = EntryStructuralFields { fields: Vec::new() };
        assert(r@ =~= Seq::<FieldView>::empty());
        r
    }

    /// Every value keeps field names unique.
    pub fn unique(&self) -> (r: bool)
        ensures
            r,
            unique_fields(self@),
    {
        proof {
            use_type_invariant(self);
        }
        true
    }

    /// Number of fields.
    pub fn len(&self) -> (r: usize)
        ensures
            r == self@.len(),
    {
        self.fields.len()
    }

    /// Stored fields in order.
    pub fn pairs(&self) -> (r: &[(String, Vec<EntryAddress>)])
        ensures
            r@.map_values(|p: (String, Vec<EntryAddress>)| field_pair_view(p)) == self@,
    {
        self.fields.as_slice()
    }

    /// Position of `field`, if present.
    pub fn position(&self, field: &str) -> (r: Option<usize>)
        ensures
            r matches Some(i) ==> field_index(self@, field@) == i && i < self@.len(),
            r is None ==> field_index(self@, field@) == -1,
    {
        proof {
            use_type_invariant(self);
            lemma_field_index(self@, field@);
        }
        let mut i: usize = 0;
        while i < self.fields.len()
            invariant
                i <= self@.len(),
                unique_fields(self@),
                forall|j: int| 0 <= j < i ==> #[trigger] self@[j].0 != field@,
            decreases self@.len() - i,
        {
            if str_eq(self.fields[i].0.as_str(), field) {
                proof {
                    lemma_field_index_unique(self@, field@, i as int);
                }
                return Some(i);
            }
            i = i + 1;
        }
        None
    }

    /// Targets of `field`, or `None` when the field is absent.
    pub fn get(&self, field: &str) -> (r: Option<&Vec<EntryAddress>>)
        ensures
            field_index(self@, field@) >= 0 ==> (r matches Some(v) && addresses_view(v@)
                == self@[field_index(self@, field@)].1),
            field_index(self@, field@) < 0 ==> r is None,
    {
        match self.position(field) {
            Some(i) => Some(&self.fields[i].1),
            None => None,
        }
    }

    /// Set the targets of `field`, in place when present, appended otherwise.
    pub fn set(&mut self, field: &str, targets: Vec<EntryAddress>)
        ensures
            final(self)@ == set_field(old(self)@, field@, addresses_view(targets@)),
    {
        proof {
            use_type_invariant(&*self);
        }
        let position = self.position(field);
        let ghost before = self@;
        let mut fields: Vec<(String, Vec<EntryAddress>)> = Vec::new();
        std::mem::swap(&mut fields, &mut self.fields);
        let ghost old_fields = fields@;
        let pair = (owned(field), targets);
        assert(field_pair_view(pair) == (field@, addresses_view(targets@)));
        match position {
            Some(i) => {
                fields.set(i, pair);
                assert(fields@ == old_fields.update(i as int, pair));
            },
            None => {
                fields.push(pair);
            },
        }
        proof {
            lemma_set_field_unique(before, field@, addresses_view(targets@));
            assert(fields@.map_values(|p: (String, Vec<EntryAddress>)| field_pair_view(p))
                =~= set_field(before, field@, addresses_view(targets@)));
        }
        self.fields = fields;
    }

    /// Add one target to `field`, creating the field when absent.
    pub fn push(&mut self, field: &str, target: EntryAddress)
        ensures
            final(self)@ == set_field(
                old(self)@,
                field@,
                targets_of(old(self)@, field@).push(target@),
            ),
    {
        let mut targets: Vec<EntryAddress> = match self.get(field) {
            Some(v) => clone_addresses(v),
            None => Vec::new(),
        };
        proof {
            lemma_field_index(self@, field@);
        }
        assert(addresses_view(targets@) =~= targets_of(self@, field@));
        let ghost tv = target@;
        targets.push(target);
        assert(addresses_view(targets@) =~= targets_of(self@, field@).push(tv));
        self.set(field, targets);
    }

    /// Replace every target equal to `old_id` by `new_id`; true when one changed.
    pub fn rename_target(&mut self, old_id: &EntryAddress, new_id: &EntryAddress) -> (r: bool)
        ensures
            final(self)@.len() == old(self)@.len(),
            forall|i: int|
                0 <= i < old(self)@.len() ==> #[trigger] final(self)@[i] == (
                    old(self)@[i].0,
                    rename_in(old(self)@[i].1, old_id@, new_id@),
                ),
            r == exists|i: int|
                0 <= i < old(self)@.len() && #[trigger] has_target(old(self)@[i].1, old_id@),
    {
        proof {
            use_type_invariant(&*self);
        }
        let ghost before = self@;
        let mut fields: Vec<(String, Vec<EntryAddress>)> = Vec::new();
        std::mem::swap(&mut fields, &mut self.fields);
        let mut out: Vec<(String, Vec<EntryAddress>)> = Vec::new();
        let mut changed = false;
        let mut i: usize = 0;
        while i < fields.len()
            invariant
                before == fields@.map_values(|p: (String, Vec<EntryAddress>)| field_pair_view(p)),
                i <= fields@.len(),
                out@.len() == i,
                forall|k: int|
                    0 <= k < i ==> #[trigger] field_pair_view(out@[k]) == (
                        before[k].0,
                        rename_in(before[k].1, old_id@, new_id@),
                    ),
                changed == exists|a: int|
                    0 <= a < i && #[trigger] has_target(before[a].1, old_id@),
            decreases fields@.len() - i,
        {
            let (renamed, any) = rename_targets(&fields[i].1, old_id, new_id);
            let name = fields[i].0.clone();
            assert(before[i as int].1 == addresses_view(fields@[i as int].1@));
            out.push((name, renamed));
            changed = changed || any;
            proof {
                if changed {
                    if !any {
                        let a = choose|a: int| 0 <= a < i && #[trigger] has_target(before[a].1, old_id@);
                        assert(has_target(before[a].1, old_id@));
                    } else {
                        assert(has_target(before[i as int].1, old_id@));
                    }
                }
                if !changed {
                    assert forall|a: int| 0 <= a < i + 1 implies !#[trigger] has_target(before[a].1, old_id@) by {
                        if a < i {
                        }
                    }
                }
            }
            i = i + 1;
        }
        proof {
            let ov = out@.map_values(|p: (String, Vec<EntryAddress>)| field_pair_view(p));
            assert forall|a: int, b: int|
                0 <= a < ov.len() && 0 <= b < ov.len() && a != b implies #[trigger] ov[a].0
                != #[trigger] ov[b].0 by {
                assert(before[a].0 != before[b].0);
            }
        }
        self.fields = out;
        changed
    }

    /// Rename field `old_id` to `new_id`, rebuilding the fields in order; true when present.
    pub fn rename_field(&mut self, old_id: &str, new_id: &str) -> (r: bool)
        ensures
            r == (field_index(old(self)@, old_id@) >= 0),
            r ==> final(self)@ == rebuild_renamed(old(self)@, old_id@, new_id@),
            !r ==> final(self)@ == old(self)@,
    {
        if self.position(old_id).is_none() {
            return false;
        }
        proof {
            use_type_invariant(&*self);
        }
        let ghost before = self@;
        let mut fields: Vec<(String, Vec<EntryAddress>)> = Vec::new();
        std::mem::swap(&mut fields, &mut self.fields);
        let mut rebuilt = EntryStructuralFields::new();
        let mut i: usize = 0;
        while i < fields.len()
            invariant
                before == fields@.map_values(|p: (String, Vec<EntryAddress>)| field_pair_view(p)),
                i <= fields@.len(),
                rebuilt@ == rebuild_renamed(before.subrange(0, i as int), old_id@, new_id@),
            decreases fields@.len() - i,
        {
            let targets = clone_addresses(&fields[i].1);
            if str_eq(fields[i].0.as_str(), old_id) {
                rebuilt.set(new_id, targets);
            } else {
                rebuilt.set(fields[i].0.as_str(), targets);
            }
            assert(before.subrange(0, i + 1).drop_last() =~= before.subrange(0, i as int));
            i = i + 1;
        }
        assert(before.subrange(0, fields@.len() as int) =~= before);
        *self = rebuilt;
        true
    }
}

/// Copies of addresses.
pub fn clone_addresses(v: &Vec<EntryAddress>) -> (r: Vec<EntryAddress>)
    ensures
        addresses_view(r@) == addresses_view(v@),
{
    let mut out: Vec<EntryAddress> = Vec::new();
    let mut i: usize = 0;
    while i < v.len()
        invariant
            i <= v@.len(),
            addresses_view(out@) == addresses_view(v@.subrange(0, i as int)),
        decreases v@.len() - i,
    {
        let c = v[i].clone();
        out.push(c);
        assert(addresses_view(v@.subrange(0, i + 1)) =~= addresses_view(v@.subrange(0, i as int)).push(v@[i as int]@));
        i = i + 1;
        assert(addresses_view(out@) =~= addresses_view(v@.subrange(0, i as int)));
    }
    assert(v@.subrange(0, v@.len() as int) =~= v@);
    out
}

/// Targets with each `old_id` replaced by `new_id`, and whether any was.
pub fn rename_targets(v: &Vec<EntryAddress>, old_id: &EntryAddress, new_id: &EntryAddress) -> (r: (
    Vec<EntryAddress>,
    bool,
))
    ensures
        addresses_view(r.0@) == rename_in(addresses_view(v@), old_id@, new_id@),
        r.1 == has_target(addresses_view(v@), old_id@),
{
    let mut out: Vec<EntryAddress> = Vec::new();
    let mut changed = false;
    let mut i: usize = 0;
    while i < v.len()
        invariant
            i <= v@.len(),
            addresses_view(out@) == rename_in(
                addresses_view(v@.subrange(0, i as int)),
                old_id@,
                new_id@,
            ),
            changed == exists|j: int| 0 <= j < i && #[trigger] v@[j]@ == old_id@,
        decreases v@.len() - i,
    {
        let ghost prev = out@;
        if v[i].same(old_id) {
            let c = new_id.clone();
            out.push(c);
            changed = true;
        } else {
            let c = v[i].clone();
            out.push(c);
        }
        let ghost x = v@[i as int]@;
        let ghost nx = if x == old_id@ { new_id@ } else { x };
        assert(addresses_view(out@) =~= addresses_view(prev).push(nx));
        assert(addresses_view(v@.subrange(0, i + 1)) =~= addresses_view(v@.subrange(0, i as int)).push(x));
        assert(rename_in(addresses_view(v@.subrange(0, i as int)).push(x), old_id@, new_id@)
            =~= rename_in(addresses_view(v@.subrange(0, i as int)), old_id@, new_id@).push(nx));
        i = i + 1;
        assert(addresses_view(out@) =~= rename_in(
            addresses_view(v@.subrange(0, i as int)),
            old_id@,
            new_id@,
        ));
    }
    assert(v@.subrange(0, v@.len() as int) =~= v@);
    proof {
        if changed {
            let j = choose|j: int| 0 <= j < v@.len() && #[trigger] v@[j]@ == old_id@;
            assert(addresses_view(v@)[j] == old_id@);
        }
    }
    (out, changed)
}


/// Why entry Markdown cannot be read into the entry model.
#[derive(Clone, Debug, PartialEq, Eq)]
pub enum EntryParseError {
    /// The source does not start with a metadata block.
    MissingFrontmatter,
    /// The metadata block has no closing fence.
    UnterminatedFrontmatter,
    /// The metadata text is not YAML; the parser's message.
    Yaml(String),
    /// The metadata root is not a mapping.
    MetadataMustBeMapping,
    /// A metadata key is not a string.
    MetadataKeyMustBeString,
    /// The managed `meta` field is not a mapping.
    MetaMustBeMapping,
    /// A managed `meta` key is not a string.
    MetaKeyMustBeString,
    /// A managed metadata field is not supported.
    UnknownMetaField(String),
    /// A required field is absent.
    MissingField(String),
    /// A required field is not a string.
    FieldMustBeString(String),
    /// A string field spans more than one line.
    FieldMustBePlainString(String),
    /// A structural field is not a list.
    FieldMustBeList(String),
    /// An item of a structural field is not a string.
    ListItemMustBeString(String),
    /// A structural target is not an entry address.
    InvalidStructuralId { field: String, value: String, source: EntryAddressError },
    /// `meta.frozen` is not a non-empty list of distinct known reasons.
    InvalidFrozenMarker,
    /// A flat tide field does not hold an admissible boolean.
    InvalidStructuralTideField(String),
    /// `frozen` stands at the top level instead of under `meta`.
    TopLevelFrozenMarker,
}

/// Human-readable description of a parse error.
pub open spec fn parse_error_text(e: EntryParseError) -> Seq<char> {
    match e {
        EntryParseError::MissingFrontmatter => "entry is missing a YAML metadata block"@,
        EntryParseError::UnterminatedFrontmatter => "entry metadata block is not closed"@,
        EntryParseError::Yaml(m) => "invalid YAML metadata: "@ + m@,
        EntryParseError::MetadataMustBeMapping => "entry metadata must be a mapping"@,
        EntryParseError::MetadataKeyMustBeString => "entry metadata keys must be strings"@,
        EntryParseError::MetaMustBeMapping => "metadata field `meta` must be a mapping"@,
        EntryParseError::MetaKeyMustBeString => "metadata field `meta` keys must be strings"@,
        EntryParseError::UnknownMetaField(f) => "unknown Sirno-managed metadata field `meta."@ + f@ + "`"@,
        EntryParseError::MissingField(f) => "missing required metadata field `"@ + f@ + "`"@,
        EntryParseError::FieldMustBeString(f) => "metadata field `"@ + f@ + "` must be a string"@,
        EntryParseError::FieldMustBePlainString(f) => "metadata field `"@ + f@ + "` must be a single-line plain string"@,
        EntryParseError::FieldMustBeList(f) => "metadata field `"@ + f@ + "` must be a list"@,
        EntryParseError::ListItemMustBeString(f) => "items in metadata field `"@ + f@ + "` must be strings"@,
        EntryParseError::InvalidStructuralId { field, value, .. } => "metadata field `"@ + field@
            + "` contains invalid entry address `"@ + value@ + "`"@,
        EntryParseError::InvalidFrozenMarker => "metadata field `meta.frozen` must be a non-empty list of reviewed or managed reasons"@,
        EntryParseError::InvalidStructuralTideField(f) => "metadata field `"@ + f@ + "` must be a boolean tide setting"@,
        EntryParseError::TopLevelFrozenMarker => "metadata field `frozen` moved to `meta.frozen`"@,
    }
}

impl EntryParseError {
    /// Human-readable description.
    pub fn message(&self) -> (r: String)
        ensures
            r@ == parse_error_text(*self),
    {
        let mut out = String::new();
        match self {
            EntryParseError::MissingFrontmatter => push_str(&mut out, "entry is missing a YAML metadata block"),
            EntryParseError::UnterminatedFrontmatter => push_str(&mut out, "entry metadata block is not closed"),
            EntryParseError::Yaml(m) => {
                push_str(&mut out, "invalid YAML metadata: ");
                push_str(&mut out, m.as_str());
            },
            EntryParseError::MetadataMustBeMapping => push_str(&mut out, "entry metadata must be a mapping"),
            EntryParseError::MetadataKeyMustBeString => push_str(&mut out, "entry metadata keys must be strings"),
            EntryParseError::MetaMustBeMapping => push_str(&mut out, "metadata field `meta` must be a mapping"),
            EntryParseError::MetaKeyMustBeString => push_str(&mut out, "metadata field `meta` keys must be strings"),
            EntryParseError::UnknownMetaField(f) => {
                push_str(&mut out, "unknown Sirno-managed metadata field `meta.");
                push_str(&mut out, f.as_str());
                push_str(&mut out, "`");
            },
            EntryParseError::MissingField(f) => {
                push_str(&mut out, "missing required metadata field `");
                push_str(&mut out, f.as_str());
                push_str(&mut out, "`");
            },
            EntryParseError::FieldMustBeString(f) => {
                push_str(&mut out, "metadata field `");
                push_str(&mut out, f.as_str());
                push_str(&mut out, "` must be a string");
            },
            EntryParseError::FieldMustBePlainString(f) => {
                push_str(&mut out, "metadata field `");
                push_str(&mut out, f.as_str());
                push_str(&mut out, "` must be a single-line plain string");
            },
            EntryParseError::FieldMustBeList(f) => {
                push_str(&mut out, "metadata field `");
                push_str(&mut out, f.as_str());
                push_str(&mut out, "` must be a list");
            },
            EntryParseError::ListItemMustBeString(f) => {
                push_str(&mut out, "items in metadata field `");
                push_str(&mut out, f.as_str());
                push_str(&mut out, "` must be strings");
            },
            EntryParseError::InvalidStructuralId { field, value, .. } => {
                push_str(&mut out, "metadata field `");
                push_str(&mut out, field.as_str());
                push_str(&mut out, "` contains invalid entry address `");
                push_str(&mut out, value.as_str());
                push_str(&mut out, "`");
            },
            EntryParseError::InvalidFrozenMarker => push_str(
                &mut out,
                "metadata field `meta.frozen` must be a non-empty list of reviewed or managed reasons",
            ),
            EntryParseError::InvalidStructuralTideField(f) => {
                push_str(&mut out, "metadata field `");
                push_str(&mut out, f.as_str());
                push_str(&mut out, "` must be a boolean tide setting");
            },
            EntryParseError::TopLevelFrozenMarker => push_str(&mut out, "metadata field `frozen` moved to `meta.frozen`"),
        }
        out
    }
}

/// Spec view of a parse error, its texts as character sequences.
pub enum ParseErrorView {
    MissingFrontmatter,
    UnterminatedFrontmatter,
    Yaml(Seq<char>),
    MetadataMustBeMapping,
    MetadataKeyMustBeString,
    MetaMustBeMapping,
    MetaKeyMustBeString,
    UnknownMetaField(Seq<char>),
    MissingField(Seq<char>),
    FieldMustBeString(Seq<char>),
    FieldMustBePlainString(Seq<char>),
    FieldMustBeList(Seq<char>),
    ListItemMustBeString(Seq<char>),
    InvalidStructuralId { field: Seq<char>, value: Seq<char>, source: EntryAddressError },
    InvalidFrozenMarker,
    InvalidStructuralTideField(Seq<char>),
    TopLevelFrozenMarker,
}

impl View for EntryParseError {
    type V = ParseErrorView;

    open spec fn view(&self) -> ParseErrorView {
        match self {
            EntryParseError::MissingFrontmatter => ParseErrorView::MissingFrontmatter,
            EntryParseError::UnterminatedFrontmatter => ParseErrorView::UnterminatedFrontmatter,
            EntryParseError::Yaml(m) => ParseErrorView::Yaml(m@),
            EntryParseError::MetadataMustBeMapping => ParseErrorView::MetadataMustBeMapping,
            EntryParseError::MetadataKeyMustBeString => ParseErrorView::MetadataKeyMustBeString,
            EntryParseError::MetaMustBeMapping => ParseErrorView::MetaMustBeMapping,
            EntryParseError::MetaKeyMustBeString => ParseErrorView::MetaKeyMustBeString,
            EntryParseError::UnknownMetaField(f) => ParseErrorView::UnknownMetaField(f@),
            EntryParseError::MissingField(f) => ParseErrorView::MissingField(f@),
            EntryParseError::FieldMustBeString(f) => ParseErrorView::FieldMustBeString(f@),
            EntryParseError::FieldMustBePlainString(f) => ParseErrorView::FieldMustBePlainString(f@),
            EntryParseError::FieldMustBeList(f) => ParseErrorView::FieldMustBeList(f@),
            EntryParseError::ListItemMustBeString(f) => ParseErrorView::ListItemMustBeString(f@),
            EntryParseError::InvalidStructuralId { field, value, source } =>
                ParseErrorView::InvalidStructuralId { field: field@, value: value@, source: *source },
            EntryParseError::InvalidFrozenMarker => ParseErrorView::InvalidFrozenMarker,
            EntryParseError::InvalidStructuralTideField(f) => ParseErrorView::InvalidStructuralTideField(f@),
            EntryParseError::TopLevelFrozenMarker => ParseErrorView::TopLevelFrozenMarker,
        }
    }
}

/// Field name `name`.
pub open spec fn name_field() -> Seq<char> {
    seq!['n', 'a', 'm', 'e']
}

/// Field name `desc`.
pub open spec fn desc_field() -> Seq<char> {
    seq!['d', 'e', 's', 'c']
}

/// Field name `meta`.
pub open spec fn meta_field() -> Seq<char> {
    seq!['m', 'e', 't', 'a']
}

/// Field name `frozen`.
pub open spec fn frozen_field() -> Seq<char> {
    seq!['f', 'r', 'o', 'z', 'e', 'n']
}

/// A single-line text: no line feed, no carriage return.
pub open spec fn is_plain(s: Seq<char>) -> bool {
    !crate::text::has_char(s, '\n') && !crate::text::has_char(s, '\r')
}

/// Characters of a literal word.
pub fn word(w: &str) -> (r: String)
    ensures
        r@ == w@,
{
    owned(w)
}

/// Check that `value` is a single-line text; the error names `field`.
pub fn validate_plain_string(field: &str, value: &str) -> (r: Result<(), EntryParseError>)
    ensures
        r is Ok <==> is_plain(value@),
        r matches Err(e) ==> e@ == ParseErrorView::FieldMustBePlainString(field@),
{
    let chars = crate::text::chars_of(value);
    if slice_has_char(chars.as_slice(), '\n') || slice_has_char(chars.as_slice(), '\r') {
        return Err(EntryParseError::FieldMustBePlainString(owned(field)));
    }
    Ok(())
}

/// Spec view of entry metadata.
pub struct MetadataView {
    pub name: Seq<char>,
    pub desc: Seq<char>,
    pub meta: EntryMeta,
    pub structural: Seq<FieldView>,
}

/// Metadata of one entry.
#[derive(Debug)]
pub struct EntryMetadata {
    /// Human-readable entry name.
    pub name: String,
    /// Short prose summary of the entry.
    pub desc: String,
    /// Sirno-managed metadata fields.
    pub meta: EntryMeta,
    /// Structural link targets keyed by field name, in authored order.
    pub structural: EntryStructuralFields,
}

impl View for EntryMetadata {
    type V = MetadataView;

    open spec fn view(&self) -> MetadataView {
        MetadataView {
            name: self.name@,
            desc: self.desc@,
            meta: self.meta,
            structural: self.structural@,
        }
    }
}

impl EntryMetadata {
    /// Metadata with the given name and description, no managed metadata and no links.
    pub fn new(name: &str, desc: &str) -> (r: Result<Self, EntryParseError>)
        ensures
            r is Ok <==> is_plain(name@) && is_plain(desc@),
            r matches Ok(m) ==> m@ == (MetadataView {
                name: name@,
                desc: desc@,
                meta: EntryMeta { frozen: None, tide: None, entry_type: None },
                structural: Seq::empty(),
            }),
            r matches Err(e) ==> e@ == ParseErrorView::FieldMustBePlainString(
                if !is_plain(name@) { name_field() } else { desc_field() },
            ),
    {
        proof {
            reveal_strlit("name");
            reveal_strlit("desc");
            assert("name"@ =~= name_field());
            assert("desc"@ =~= desc_field());
        }
        if let Err(e) = validate_plain_string("name", name) {
            return Err(e);
        }
        if let Err(e) = validate_plain_string("desc", desc) {
            return Err(e);
        }
        Ok(EntryMetadata {
            name: owned(name),
            desc: owned(desc),
            meta: EntryMeta::empty(),
            structural: EntryStructuralFields::new(),
        })
    }

    /// Structural fields in authored order.
    pub fn structural_fields(&self) -> (r: &[(String, Vec<EntryAddress>)])
        ensures
            r@.map_values(|p: (String, Vec<EntryAddress>)| field_pair_view(p)) == self@.structural,
    {
        self.structural.pairs()
    }

    /// Targets of one field, or `None` when the field is absent.
    pub fn structural_field(&self, field: &str) -> (r: Option<&Vec<EntryAddress>>)
        ensures
            field_index(self@.structural, field@) >= 0 ==> (r matches Some(v) && addresses_view(
                v@,
            ) == targets_of(self@.structural, field@)),
            field_index(self@.structural, field@) < 0 ==> r is None,
    {
        self.structural.get(field)
    }

    /// Targets of one field; empty when the field is absent.
    pub fn structural_targets_for(&self, field: &str) -> (r: Vec<EntryAddress>)
        ensures
            addresses_view(r@) == targets_of(self@.structural, field@),
    {
        match self.structural.get(field) {
            Some(v) => clone_addresses(v),
            None => {
                let r: Vec<EntryAddress> = Vec::new();
                assert(addresses_view(r@) =~= Seq::<Seq<char>>::empty());
                r
            },
        }
    }

    /// Set the targets of one field; an empty list records a present empty field.
    pub fn set_structural_targets(&mut self, field: &str, targets: Vec<EntryAddress>)
        ensures
            final(self)@ == (MetadataView {
                structural: set_field(old(self)@.structural, field@, addresses_view(targets@)),
                ..old(self)@
            }),
    {
        self.structural.set(field, targets);
    }

    /// Add one target to one field.
    pub fn push_structural_target(&mut self, field: &str, target: EntryAddress)
        ensures
            final(self)@ == (MetadataView {
                structural: set_field(
                    old(self)@.structural,
                    field@,
                    targets_of(old(self)@.structural, field@).push(target@),
                ),
                ..old(self)@
            }),
    {
        self.structural.push(field, target);
    }

    /// Replace every structural target equal to `old_id`; true when one changed.
    pub fn rename_structural_target(&mut self, old_id: &EntryAddress, new_id: &EntryAddress) -> (r:
        bool)
        ensures
            final(self)@.name == old(self)@.name,
            final(self)@.desc == old(self)@.desc,
            final(self)@.meta == old(self)@.meta,
            final(self)@.structural.len() == old(self)@.structural.len(),
            forall|i: int|
                0 <= i < old(self)@.structural.len() ==> #[trigger] final(self)@.structural[i] == (
                    old(self)@.structural[i].0,
                    rename_in(old(self)@.structural[i].1, old_id@, new_id@),
                ),
            r == exists|i: int|
                0 <= i < old(self)@.structural.len() && #[trigger] has_target(
                    old(self)@.structural[i].1,
                    old_id@,
                ),
    {
        self.structural.rename_target(old_id, new_id)
    }

    /// Rename one structural field, keeping its position; true when it was present.
    pub fn rename_structural_field(&mut self, old_id: &EntryAddress, new_id: &EntryAddress) -> (r:
        bool)
        ensures
            r == (field_index(old(self)@.structural, old_id@) >= 0),
            final(self)@ == (MetadataView {
                structural: if r {
                    rebuild_renamed(old(self)@.structural, old_id@, new_id@)
                } else {
                    old(self)@.structural
                },
                ..old(self)@
            }),
    {
        self.structural.rename_field(old_id.as_str(), new_id.as_str())
    }
}

/// Spec view of an entry.
pub struct EntryView {
    pub id: Seq<char>,
    pub metadata: MetadataView,
    pub body: Seq<char>,
}

/// One entry: its address, typed metadata and Markdown body.
#[derive(Debug)]
pub struct Entry {
    /// Address of this entry.
    pub id: EntryAddress,
    /// Typed metadata read from the YAML block.
    pub metadata: EntryMetadata,
    /// Markdown body after the metadata block.
    pub body: String,
}

impl View for Entry {
    type V = EntryView;

    open spec fn view(&self) -> EntryView {
        EntryView { id: self.id@, metadata: self.metadata@, body: self.body@ }
    }
}

impl Entry {
    /// An entry from typed parts.
    pub fn new(id: EntryAddress, metadata: EntryMetadata, body: &str) -> (r: Self)
        ensures
            r@ == (EntryView { id: id@, metadata: metadata@, body: body@ }),
    {
        Entry { id, metadata, body: owned(body) }
    }
}

} // verus!
