//! Structural checks over a set of entries.
//!
//! The check looks at the shape of entries and at structural link targets.
//! It does not decide whether prose is true or whether code satisfies a claim.

use vstd::prelude::*;
use crate::address::EntryAddress;
use crate::entry::{Entry, EntryView, EntryMetaType, FieldView, targets_of, has_target, addresses_view, unique_fields};
use crate::structural::{StructuralSettings, has_relation, relation_index, lemma_relation_index, opt_address_view};
use crate::text::{owned, push_str};
use crate::meta::{MetaRegistry, intrinsic_field_name, validate_intrinsic_field_name};
use crate::structural::{malformed_field_name, reserved_field_name, validate_structural_field_name};
use crate::sorted::{strictly_sorted, lemma_sorted_unique, contains_address, insert_sorted};

verus! {

/// Boundary at which entries are checked.
#[derive(Clone, Copy, Debug, PartialEq, Eq, Structural)]
pub enum CheckMode {
    /// Editing checks keep local movement fast.
    Edit,
    /// Review checks treat dangling structural link references as errors.
    Review,
}

/// Severity of one diagnostic.
#[derive(Clone, Copy, Debug, PartialEq, Eq, Structural)]
pub enum CheckSeverity {
    /// A condition worth showing during editing.
    Warning,
    /// A structural violation at the selected boundary.
    Error,
}

/// Reason for one diagnostic.
#[derive(Clone, Copy, Debug, PartialEq, Eq, Structural)]
pub enum CheckDiagnosticKind {
    /// A structural relation entry whose address cannot be a metadata field.
    InvalidStructuralRelationField,
    /// An intrinsic metadata-field entry whose address cannot be a metadata field.
    InvalidIntrinsicField,
    /// An entry uses a link relation that no relation entry defines.
    UninhabitedStructuralField,
    /// A structural link target does not name an entry.
    MissingTarget,
    /// Category metadata is present but the category entry is missing.
    MissingCategoryEntry,
    /// An entry used as a category target is not itself categorized.
    CategoryTargetMissingCategoryMarker,
}

/// Severity of the diagnostics that a boundary raises for violations.
pub open spec fn mode_severity(mode: CheckMode) -> CheckSeverity {
    match mode {
        CheckMode::Edit => CheckSeverity::Warning,
        CheckMode::Review => CheckSeverity::Error,
    }
}

impl CheckMode {
    /// Diagnostic severity used by this check boundary.
    pub fn severity(self) -> (r: CheckSeverity)
        ensures
            r == mode_severity(self),
    {
        match self {
            CheckMode::Edit => CheckSeverity::Warning,
            CheckMode::Review => CheckSeverity::Error,
        }
    }
}

impl Default for CheckMode {
    fn default() -> (r: Self)
        ensures
            r == CheckMode::Review,
    {
        CheckMode::Review
    }
}

/// Label of a severity.
pub open spec fn severity_label(s: CheckSeverity) -> Seq<char> {
    match s {
        CheckSeverity::Warning => "warning"@,
        CheckSeverity::Error => "error"@,
    }
}

impl CheckSeverity {
    /// Lowercase label used in human-readable output.
    pub fn label(self) -> (r: &'static str)
        ensures
            r@ == severity_label(self),
    {
        match self {
            CheckSeverity::Warning => "warning",
            CheckSeverity::Error => "error",
        }
    }
}

/// Spec view of one diagnostic.
pub struct DiagnosticView {
    pub severity: CheckSeverity,
    pub kind: CheckDiagnosticKind,
    pub entry: Option<Seq<char>>,
    pub field: Seq<char>,
    pub target: Option<Seq<char>>,
}

/// One structural diagnostic.
#[derive(Debug)]
pub struct CheckDiagnostic {
    /// Diagnostic severity.
    pub severity: CheckSeverity,
    /// Structural problem detected by the check.
    pub kind: CheckDiagnosticKind,
    /// Entry whose metadata produced the diagnostic.
    pub entry: Option<EntryAddress>,
    /// Metadata field that produced the diagnostic.
    pub field: String,
    /// Referenced address that produced the diagnostic.
    pub target: Option<EntryAddress>,
}

impl View for CheckDiagnostic {
    type V = DiagnosticView;

    open spec fn view(&self) -> DiagnosticView {
        DiagnosticView {
            severity: self.severity,
            kind: self.kind,
            entry: opt_address_view(self.entry),
            field: self.field@,
            target: opt_address_view(self.target),
        }
    }
}

/// Stable code of a diagnostic kind.
pub open spec fn kind_code(k: CheckDiagnosticKind) -> Seq<char> {
    match k {
        CheckDiagnosticKind::InvalidStructuralRelationField => "check.structural.field.invalid"@,
        CheckDiagnosticKind::InvalidIntrinsicField => "check.intrinsic.field.invalid"@,
        CheckDiagnosticKind::UninhabitedStructuralField => "check.structural.field.undefined"@,
        CheckDiagnosticKind::MissingTarget => "check.structural.target.missing"@,
        CheckDiagnosticKind::MissingCategoryEntry => "check.category.entry.missing"@,
        CheckDiagnosticKind::CategoryTargetMissingCategoryMarker => "check.category.marker.missing"@,
    }
}

/// The diagnostic names the parts that its message and help text print.
pub open spec fn diagnostic_printable(d: DiagnosticView) -> bool {
    match d.kind {
        CheckDiagnosticKind::MissingCategoryEntry => true,
        CheckDiagnosticKind::MissingTarget => d.entry is Some && d.target is Some,
        CheckDiagnosticKind::CategoryTargetMissingCategoryMarker => d.entry is Some
            && d.target is Some,
        _ => d.entry is Some,
    }
}

/// Human-readable message of a diagnostic.
pub open spec fn diagnostic_message(d: DiagnosticView) -> Seq<char> {
    let e = d.entry->0;
    let t = d.target->0;
    match d.kind {
        CheckDiagnosticKind::InvalidStructuralRelationField => "`"@ + e
            + "` defines `meta.type: \"structural\"`, but its address is not a valid structural relation field"@,
        CheckDiagnosticKind::InvalidIntrinsicField => "`"@ + e
            + "` defines `meta.type: \"intrinsic\"`, but its address is not a valid intrinsic metadata field"@,
        CheckDiagnosticKind::UninhabitedStructuralField => "`"@ + e + "` uses link relation `"@
            + d.field + "` without a structural relation entry"@,
        CheckDiagnosticKind::MissingTarget => "`"@ + e + "` references missing entry `"@ + t
            + "` through `"@ + d.field + "`"@,
        CheckDiagnosticKind::MissingCategoryEntry =>
            "`category` metadata needs entry `category`; add it with `sirno util entry`"@,
        CheckDiagnosticKind::CategoryTargetMissingCategoryMarker => "`"@ + e
            + "` is used as a category target, but it is not categorized by `"@ + t + "`"@,
    }
}

/// Repair hint of a diagnostic.
pub open spec fn diagnostic_help(d: DiagnosticView) -> Seq<char> {
    let e = d.entry->0;
    let t = d.target->0;
    match d.kind {
        CheckDiagnosticKind::InvalidStructuralRelationField =>
            "Rename the entry to a valid structural metadata field name."@,
        CheckDiagnosticKind::InvalidIntrinsicField =>
            "Rename the entry to a valid intrinsic metadata field name."@,
        CheckDiagnosticKind::UninhabitedStructuralField => "Add entry `"@ + d.field
            + "` with `meta.type: \"structural\"`, or remove this metadata field."@,
        CheckDiagnosticKind::MissingTarget => "Create entry `"@ + t + "` or remove it from `"@
            + d.field + "`."@,
        CheckDiagnosticKind::MissingCategoryEntry =>
            "Create the default category entry with `sirno util entry`."@,
        CheckDiagnosticKind::CategoryTargetMissingCategoryMarker => "Add `category: ["@ + t
            + "]` to `"@ + e + "`."@,
    }
}

impl CheckDiagnostic {
    /// Whether the diagnostic names what its message and help need.
    pub fn is_printable(&self) -> (r: bool)
        ensures
            r == diagnostic_printable(self@),
    {
        match self.kind {
            CheckDiagnosticKind::MissingCategoryEntry => true,
            CheckDiagnosticKind::MissingTarget => self.entry.is_some() && self.target.is_some(),
            CheckDiagnosticKind::CategoryTargetMissingCategoryMarker => self.entry.is_some()
                && self.target.is_some(),
            _ => self.entry.is_some(),
        }
    }

    /// Stable diagnostic code.
    pub fn code(&self) -> (r: &'static str)
        ensures
            r@ == kind_code(self.kind),
    {
        match self.kind {
            CheckDiagnosticKind::InvalidStructuralRelationField => "check.structural.field.invalid",
            CheckDiagnosticKind::InvalidIntrinsicField => "check.intrinsic.field.invalid",
            CheckDiagnosticKind::UninhabitedStructuralField => "check.structural.field.undefined",
            CheckDiagnosticKind::MissingTarget => "check.structural.target.missing",
            CheckDiagnosticKind::MissingCategoryEntry => "check.category.entry.missing",
            CheckDiagnosticKind::CategoryTargetMissingCategoryMarker => "check.category.marker.missing",
        }
    }

    /// Human-readable diagnostic message.
    pub fn message(&self) -> (r: String)
        requires
            diagnostic_printable(self@),
        ensures
            r@ == diagnostic_message(self@),
    {
        let mut s = String::new();
        match self.kind {
            CheckDiagnosticKind::InvalidStructuralRelationField => {
                push_str(&mut s, "`");
                push_str(&mut s, self.entry.as_ref().unwrap().as_str());
                push_str(
                    &mut s,
                    "` defines `meta.type: \"structural\"`, but its address is not a valid structural relation field",
                );
            },
            CheckDiagnosticKind::InvalidIntrinsicField => {
                push_str(&mut s, "`");
                push_str(&mut s, self.entry.as_ref().unwrap().as_str());
                push_str(
                    &mut s,
                    "` defines `meta.type: \"intrinsic\"`, but its address is not a valid intrinsic metadata field",
                );
            },
            CheckDiagnosticKind::UninhabitedStructuralField => {
                push_str(&mut s, "`");
                push_str(&mut s, self.entry.as_ref().unwrap().as_str());
                push_str(&mut s, "` uses link relation `");
                push_str(&mut s, self.field.as_str());
                push_str(&mut s, "` without a structural relation entry");
            },
            CheckDiagnosticKind::MissingTarget => {
                push_str(&mut s, "`");
                push_str(&mut s, self.entry.as_ref().unwrap().as_str());
                push_str(&mut s, "` references missing entry `");
                push_str(&mut s, self.target.as_ref().unwrap().as_str());
                push_str(&mut s, "` through `");
                push_str(&mut s, self.field.as_str());
                push_str(&mut s, "`");
            },
            CheckDiagnosticKind::MissingCategoryEntry => {
                push_str(
                    &mut s,
                    "`category` metadata needs entry `category`; add it with `sirno util entry`",
                );
            },
            CheckDiagnosticKind::CategoryTargetMissingCategoryMarker => {
                push_str(&mut s, "`");
                push_str(&mut s, self.entry.as_ref().unwrap().as_str());
                push_str(&mut s, "` is used as a category target, but it is not categorized by `");
                push_str(&mut s, self.target.as_ref().unwrap().as_str());
                push_str(&mut s, "`");
            },
        }
        s
    }

    /// Repair hint for human and agent-facing output.
    pub fn help(&self) -> (r: Option<String>)
        requires
            diagnostic_printable(self@),
        ensures
            r matches Some(h) && h@ == diagnostic_help(self@),
    {
        let mut s = String::new();
        match self.kind {
            CheckDiagnosticKind::InvalidStructuralRelationField => {
                push_str(&mut s, "Rename the entry to a valid structural metadata field name.");
            },
            CheckDiagnosticKind::InvalidIntrinsicField => {
                push_str(&mut s, "Rename the entry to a valid intrinsic metadata field name.");
            },
            CheckDiagnosticKind::UninhabitedStructuralField => {
                push_str(&mut s, "Add entry `");
                push_str(&mut s, self.field.as_str());
                push_str(&mut s, "` with `meta.type: \"structural\"`, or remove this metadata field.");
            },
            CheckDiagnosticKind::MissingTarget => {
                push_str(&mut s, "Create entry `");
                push_str(&mut s, self.target.as_ref().unwrap().as_str());
                push_str(&mut s, "` or remove it from `");
                push_str(&mut s, self.field.as_str());
                push_str(&mut s, "`.");
            },
            CheckDiagnosticKind::MissingCategoryEntry => {
                push_str(&mut s, "Create the default category entry with `sirno util entry`.");
            },
            CheckDiagnosticKind::CategoryTargetMissingCategoryMarker => {
                push_str(&mut s, "Add `category: [");
                push_str(&mut s, self.target.as_ref().unwrap().as_str());
                push_str(&mut s, "]` to `");
                push_str(&mut s, self.entry.as_ref().unwrap().as_str());
                push_str(&mut s, "`.");
            },
        }
        Some(s)
    }
}

/// Views of a sequence of diagnostics.
pub open spec fn diagnostics_view(v: Seq<CheckDiagnostic>) -> Seq<DiagnosticView> {
    v.map_values(|d: CheckDiagnostic| d@)
}

/// Some diagnostic is an error.
pub open spec fn any_error(ds: Seq<DiagnosticView>) -> bool {
    exists|i: int| 0 <= i < ds.len() && ds[i].severity == CheckSeverity::Error
}

/// Result of checking a set of entries.
#[derive(Debug)]
pub struct CheckReport {
    diagnostics: Vec<CheckDiagnostic>,
}

impl View for CheckReport {
    type V = Seq<DiagnosticView>;

    closed spec fn view(&self) -> Seq<DiagnosticView> {
        diagnostics_view(self.diagnostics@)
    }
}

impl CheckReport {
    /// An empty report.
    pub fn new() -> (r: Self)
        ensures
            r@ == Seq::<DiagnosticView>::empty(),
    {
        let r = CheckReport { diagnostics: Vec::new() };
        assert(r@ =~= Seq::<DiagnosticView>::empty());
        r
    }

    /// Add one diagnostic to the report.
    pub fn push(&mut self, diagnostic: CheckDiagnostic)
        ensures
            final(self)@ == old(self)@.push(diagnostic@),
    {
        self.diagnostics.push(diagnostic);
        assert(self@ =~= old(self)@.push(diagnostic@));
    }

    /// All diagnostics in check order.
    pub fn diagnostics(&self) -> (r: &[CheckDiagnostic])
        ensures
            diagnostics_view(r@) == self@,
    {
        self.diagnostics.as_slice()
    }

    /// Whether the report holds no diagnostic.
    pub fn is_clean(&self) -> (r: bool)
        ensures
            r == (self@.len() == 0),
    {
        self.diagnostics.len() == 0
    }

    /// Whether at least one diagnostic is an error.
    pub fn has_errors(&self) -> (r: bool)
        ensures
            r == any_error(self@),
    {
        let mut i: usize = 0;
        while i < self.diagnostics.len()
            invariant
                i <= self@.len(),
                self@.len() == self.diagnostics@.len(),
                forall|j: int| 0 <= j < i ==> #[trigger] self@[j].severity != CheckSeverity::Error,
            decreases self@.len() - i,
        {
            if self.diagnostics[i].severity == CheckSeverity::Error {
                assert(self@[i as int].severity == CheckSeverity::Error);
                return true;
            }
            i = i + 1;
        }
        false
    }
}


/// Field name of category metadata.
pub open spec fn category_field() -> Seq<char> {
    "category"@
}

/// Views of a sequence of entries.
pub open spec fn entries_view(v: Seq<&Entry>) -> Seq<EntryView> {
    v.map_values(|e: &Entry| e@)
}

/// Some entry has address `id`.
pub open spec fn has_id(es: Seq<EntryView>, id: Seq<char>) -> bool {
    exists|j: int| 0 <= j < es.len() && es[j].id == id
}

/// A diagnostic from its parts.
pub open spec fn diag(
    severity: CheckSeverity,
    kind: CheckDiagnosticKind,
    entry: Option<Seq<char>>,
    field: Seq<char>,
    target: Option<Seq<char>>,
) -> DiagnosticView {
    DiagnosticView { severity, kind, entry, field, target }
}

/// Missing-target diagnostics for the targets of one field, in target order.
pub open spec fn target_diags(
    es: Seq<EntryView>,
    id: Seq<char>,
    field: Seq<char>,
    targets: Seq<Seq<char>>,
    sev: CheckSeverity,
) -> Seq<DiagnosticView>
    decreases targets.len(),
{
    if targets.len() == 0 {
        Seq::empty()
    } else {
        let rest = target_diags(es, id, field, targets.drop_last(), sev);
        let t = targets.last();
        if has_id(es, t) {
            rest
        } else {
            rest.push(diag(sev, CheckDiagnosticKind::MissingTarget, Some(id), field, Some(t)))
        }
    }
}

/// Diagnostics for the structural fields of one entry, in field order.
pub open spec fn field_diags(
    es: Seq<EntryView>,
    rs: Seq<(Seq<char>, Option<Seq<char>>)>,
    id: Seq<char>,
    fields: Seq<FieldView>,
    sev: CheckSeverity,
) -> Seq<DiagnosticView>
    decreases fields.len(),
{
    if fields.len() == 0 {
        Seq::empty()
    } else {
        let rest = field_diags(es, rs, id, fields.drop_last(), sev);
        let f = fields.last();
        if !has_relation(rs, f.0) {
            rest.push(
                diag(
                    CheckSeverity::Warning,
                    CheckDiagnosticKind::UninhabitedStructuralField,
                    Some(id),
                    f.0,
                    None,
                ),
            )
        } else {
            rest + target_diags(es, id, f.0, f.1, sev)
        }
    }
}

/// Diagnostics for one entry: its own role, then its structural fields.
pub open spec fn entry_diags(
    es: Seq<EntryView>,
    rs: Seq<(Seq<char>, Option<Seq<char>>)>,
    e: EntryView,
    sev: CheckSeverity,
) -> Seq<DiagnosticView> {
    let intrinsic = if e.metadata.meta.entry_type == Some(EntryMetaType::Intrinsic)
        && !intrinsic_field_name(e.id) {
        seq![diag(sev, CheckDiagnosticKind::InvalidIntrinsicField, Some(e.id), e.id, None)]
    } else {
        Seq::empty()
    };
    let relation = if e.metadata.meta.entry_type == Some(EntryMetaType::Relation) && (
    malformed_field_name(e.id) || reserved_field_name(e.id)) {
        seq![diag(sev, CheckDiagnosticKind::InvalidStructuralRelationField, Some(e.id), e.id, None)]
    } else {
        Seq::empty()
    };
    intrinsic + relation + field_diags(es, rs, e.id, e.metadata.structural, sev)
}

/// Diagnostics for the entries of `prefix`, in entry order.
pub open spec fn entries_diags(
    es: Seq<EntryView>,
    rs: Seq<(Seq<char>, Option<Seq<char>>)>,
    prefix: Seq<EntryView>,
    sev: CheckSeverity,
) -> Seq<DiagnosticView>
    decreases prefix.len(),
{
    if prefix.len() == 0 {
        Seq::empty()
    } else {
        entries_diags(es, rs, prefix.drop_last(), sev) + entry_diags(es, rs, prefix.last(), sev)
    }
}

/// No later entry has the address of entry `i`.
pub open spec fn last_with_id(es: Seq<EntryView>, i: int) -> bool {
    forall|j: int| i < j < es.len() ==> #[trigger] es[j].id != es[i].id
}

/// `t` is a category target of one of the first `n` entries that is the last with its address.
pub open spec fn category_target_upto(es: Seq<EntryView>, n: int, t: Seq<char>) -> bool {
    exists|i: int|
        0 <= i < n && last_with_id(es, i) && #[trigger] has_target(
            targets_of(es[i].metadata.structural, category_field()),
            t,
        )
}

/// The category targets of all entries, in text order.
pub open spec fn category_order(es: Seq<EntryView>) -> Seq<Seq<char>> {
    choose|s: Seq<Seq<char>>|
        strictly_sorted(s) && forall|t: Seq<char>| #[trigger]
            s.contains(t) <==> category_target_upto(es, es.len() as int, t)
}

/// Index of the last entry with address `id`, or -1.
pub open spec fn last_index_of(es: Seq<EntryView>, id: Seq<char>) -> int
    decreases es.len(),
{
    if es.len() == 0 {
        -1
    } else if es.last().id == id {
        es.len() - 1
    } else {
        last_index_of(es.drop_last(), id)
    }
}

/// The entry that categories are marked with.
pub open spec fn category_id(rs: Seq<(Seq<char>, Option<Seq<char>>)>) -> Seq<char> {
    let i = relation_index(rs, category_field());
    if i >= 0 && rs[i].1 is Some {
        rs[i].1->0
    } else {
        category_field()
    }
}

/// Diagnostics for category targets of `order` that are not themselves categorized.
pub open spec fn marker_diags(
    es: Seq<EntryView>,
    cat: Seq<char>,
    order: Seq<Seq<char>>,
    sev: CheckSeverity,
) -> Seq<DiagnosticView>
    decreases order.len(),
{
    if order.len() == 0 {
        Seq::empty()
    } else {
        let rest = marker_diags(es, cat, order.drop_last(), sev);
        let t = order.last();
        let k = last_index_of(es, t);
        if k >= 0 && !has_target(targets_of(es[k].metadata.structural, category_field()), cat) {
            rest.push(
                diag(
                    sev,
                    CheckDiagnosticKind::CategoryTargetMissingCategoryMarker,
                    Some(t),
                    category_field(),
                    Some(cat),
                ),
            )
        } else {
            rest
        }
    }
}

/// Diagnostics about category metadata.
pub open spec fn category_diags(
    es: Seq<EntryView>,
    rs: Seq<(Seq<char>, Option<Seq<char>>)>,
    sev: CheckSeverity,
) -> Seq<DiagnosticView> {
    let order = category_order(es);
    let cat = category_id(rs);
    if order.len() == 0 && !has_relation(rs, category_field()) {
        Seq::empty()
    } else {
        let missing = if has_id(es, cat) {
            Seq::empty()
        } else {
            seq![
                diag(
                    CheckSeverity::Warning,
                    CheckDiagnosticKind::MissingCategoryEntry,
                    None,
                    category_field(),
                    Some(cat),
                ),
            ]
        };
        missing + marker_diags(es, cat, order, sev)
    }
}

/// All diagnostics of a check: per entry in order, then category diagnostics.
pub open spec fn check_spec(
    es: Seq<EntryView>,
    rs: Seq<(Seq<char>, Option<Seq<char>>)>,
    mode: CheckMode,
) -> Seq<DiagnosticView> {
    entries_diags(es, rs, es, mode_severity(mode)) + category_diags(es, rs, mode_severity(mode))
}

pub proof fn lemma_last_index_of(es: Seq<EntryView>, id: Seq<char>)
    ensures
        -1 <= last_index_of(es, id) < es.len(),
        last_index_of(es, id) >= 0 ==> es[last_index_of(es, id)].id == id,
        last_index_of(es, id) >= 0 ==> forall|j: int|
            last_index_of(es, id) < j < es.len() ==> #[trigger] es[j].id != id,
        last_index_of(es, id) == -1 <==> !has_id(es, id),
    decreases es.len(),
{
    if es.len() > 0 {
        lemma_last_index_of(es.drop_last(), id);
        assert forall|i: int| 0 <= i < es.len() - 1 implies es[i] == es.drop_last()[i] by {}
        if last_index_of(es, id) == -1 {
            assert(es.last().id != id);
            if has_id(es, id) {
                let j = choose|j: int| 0 <= j < es.len() && es[j].id == id;
                assert(es.drop_last()[j].id == id);
            }
        }
        if has_id(es.drop_last(), id) {
            let j = choose|j: int| 0 <= j < es.len() - 1 && es.drop_last()[j].id == id;
            assert(es[j].id == id);
        }
    }
}


/// Whether some entry has address `id`.
fn contains_id(entries: &[&Entry], id: &EntryAddress) -> (r: bool)
    ensures
        r == has_id(entries_view(entries@), id@),
{
    let ghost es = entries_view(entries@);
    let mut j: usize = 0;
    while j < entries.len()
        invariant
            j <= entries@.len(),
            es == entries_view(entries@),
            forall|k: int| 0 <= k < j ==> #[trigger] es[k].id != id@,
        decreases entries@.len() - j,
    {
        if entries[j].id.same(id) {
            assert(es[j as int].id == id@);
            return true;
        }
        j = j + 1;
    }
    false
}

/// Index of the last entry with address `id`.
fn last_index(entries: &[&Entry], id: &EntryAddress) -> (r: Option<usize>)
    ensures
        match r {
            Some(k) => k == last_index_of(entries_view(entries@), id@),
            None => last_index_of(entries_view(entries@), id@) == -1,
        },
{
    let ghost es = entries_view(entries@);
    proof {
        lemma_last_index_of(es, id@);
    }
    let mut j: usize = entries.len();
    while j > 0
        invariant
            j <= entries@.len(),
            es == entries_view(entries@),
            forall|k: int| j <= k < es.len() ==> #[trigger] es[k].id != id@,
        decreases j,
    {
        j = j - 1;
        if entries[j].id.same(id) {
            proof {
                lemma_last_index_of_at(es, id@, j as int);
            }
            return Some(j);
        }
    }
    proof {
        if last_index_of(es, id@) >= 0 {
            assert(es[last_index_of(es, id@)].id == id@);
        }
    }
    None
}

/// The last index with address `id` is `k` when entry `k` has it and no later one does.
proof fn lemma_last_index_of_at(es: Seq<EntryView>, id: Seq<char>, k: int)
    requires
        0 <= k < es.len(),
        es[k].id == id,
        forall|j: int| k < j < es.len() ==> #[trigger] es[j].id != id,
    ensures
        last_index_of(es, id) == k,
    decreases es.len(),
{
    if k < es.len() - 1 {
        assert(es.last().id != id);
        assert forall|j: int| k < j < es.len() - 1 implies #[trigger] es.drop_last()[j].id != id by {
            assert(es[j].id != id);
        }
        lemma_last_index_of_at(es.drop_last(), id, k);
    }
}

/// Whether no later entry has the address of entry `i`.
fn is_last(entries: &[&Entry], i: usize) -> (r: bool)
    requires
        i < entries@.len(),
    ensures
        r == last_with_id(entries_view(entries@), i as int),
{
    let ghost es = entries_view(entries@);
    let n = entries.len();
    let mut j: usize = i + 1;
    while j < entries.len()
        invariant
            i < j <= entries@.len(),
            es == entries_view(entries@),
            forall|k: int| i < k < j ==> #[trigger] es[k].id != es[i as int].id,
        decreases entries@.len() - j,
    {
        if entries[j].id.same(&entries[i].id) {
            assert(es[j as int].id == es[i as int].id);
            return false;
        }
        j = j + 1;
    }
    true
}

/// A diagnostic from its parts.
fn make_diagnostic(
    severity: CheckSeverity,
    kind: CheckDiagnosticKind,
    entry: Option<&EntryAddress>,
    field: &str,
    target: Option<&EntryAddress>,
) -> (r: CheckDiagnostic)
    ensures
        r@ == diag(
            severity,
            kind,
            match entry {
                Some(e) => Some(e@),
                None => None,
            },
            field@,
            match target {
                Some(t) => Some(t@),
                None => None,
            },
        ),
{
    let entry = match entry {
        Some(e) => Some(e.clone()),
        None => None,
    };
    let target = match target {
        Some(t) => Some(t.clone()),
        None => None,
    };
    CheckDiagnostic { severity, kind, entry, field: owned(field), target }
}

/// Report the targets of one field that name no entry.
fn push_target_diags(
    entries: &[&Entry],
    id: &EntryAddress,
    field: &str,
    targets: &Vec<EntryAddress>,
    sev: CheckSeverity,
    report: &mut CheckReport,
)
    ensures
        final(report)@ == old(report)@ + target_diags(
            entries_view(entries@),
            id@,
            field@,
            addresses_view(targets@),
            sev,
        ),
{
    let ghost es = entries_view(entries@);
    let ghost tv = addresses_view(targets@);
    let ghost base = report@;
    let mut k: usize = 0;
    assert(tv.take(0) =~= Seq::<Seq<char>>::empty());
    assert(base + Seq::<DiagnosticView>::empty() =~= base);
    while k < targets.len()
        invariant
            k <= tv.len(),
            tv == addresses_view(targets@),
            es == entries_view(entries@),
            base == old(report)@,
            report@ == base + target_diags(es, id@, field@, tv.take(k as int), sev),
        decreases tv.len() - k,
    {
        assert(tv.take(k + 1).drop_last() =~= tv.take(k as int));
        assert(tv.take(k + 1).last() == tv[k as int]);
        if !contains_id(entries, &targets[k]) {
            let d = make_diagnostic(
                sev,
                CheckDiagnosticKind::MissingTarget,
                Some(id),
                field,
                Some(&targets[k]),
            );
            report.push(d);
            assert(report@ =~= base + target_diags(es, id@, field@, tv.take(k + 1), sev));
        }
        k = k + 1;
    }
    assert(tv.take(k as int) =~= tv);
}

/// Report the structural fields of one entry.
fn push_field_diags(
    entries: &[&Entry],
    entry: &Entry,
    structural: &StructuralSettings,
    sev: CheckSeverity,
    report: &mut CheckReport,
)
    ensures
        final(report)@ == old(report)@ + field_diags(
            entries_view(entries@),
            structural@,
            entry@.id,
            entry@.metadata.structural,
            sev,
        ),
{
    let ghost es = entries_view(entries@);
    let ghost rs = structural@;
    let ghost base = report@;
    let fields = entry.metadata.structural_fields();
    let ghost fv = entry@.metadata.structural;
    let mut j: usize = 0;
    assert(fv.take(0) =~= Seq::<FieldView>::empty());
    assert(base + Seq::<DiagnosticView>::empty() =~= base);
    while j < fields.len()
        invariant
            j <= fields@.len(),
            fv.len() == fields@.len(),
            fv == entry@.metadata.structural,
            forall|k: int|
                0 <= k < fields@.len() ==> fv[k] == crate::entry::field_pair_view(
                    #[trigger] fields@[k],
                ),
            es == entries_view(entries@),
            rs == structural@,
            base == old(report)@,
            report@ == base + field_diags(es, rs, entry@.id, fv.take(j as int), sev),
        decreases fields@.len() - j,
    {
        assert(fv.take(j + 1).drop_last() =~= fv.take(j as int));
        assert(fv.take(j + 1).last() == fv[j as int]);
        let field = fields[j].0.as_str();
        let targets = &fields[j].1;
        assert(fv[j as int].0 == field@);
        assert(fv[j as int].1 == addresses_view(targets@));
        if !structural.contains_field(field) {
            let d = make_diagnostic(
                CheckSeverity::Warning,
                CheckDiagnosticKind::UninhabitedStructuralField,
                Some(&entry.id),
                field,
                None,
            );
            report.push(d);
            assert(report@ =~= base + field_diags(es, rs, entry@.id, fv.take(j + 1), sev));
        } else {
            let ghost mid = report@;
            push_target_diags(entries, &entry.id, field, targets, sev, report);
            assert(report@ =~= base + field_diags(es, rs, entry@.id, fv.take(j + 1), sev));
        }
        j = j + 1;
    }
    assert(fv.take(j as int) =~= fv);
}

/// Report one entry: its declared role, then its structural fields.
fn push_entry_diags(
    entries: &[&Entry],
    entry: &Entry,
    structural: &StructuralSettings,
    sev: CheckSeverity,
    report: &mut CheckReport,
)
    ensures
        final(report)@ == old(report)@ + entry_diags(
            entries_view(entries@),
            structural@,
            entry@,
            sev,
        ),
{
    let ghost base = report@;
    let ghost es = entries_view(entries@);
    let ghost e = entry@;
    let ghost intrinsic = if e.metadata.meta.entry_type == Some(EntryMetaType::Intrinsic)
        && !intrinsic_field_name(e.id) {
        seq![diag(sev, CheckDiagnosticKind::InvalidIntrinsicField, Some(e.id), e.id, None)]
    } else {
        Seq::empty()
    };
    let ghost relation = if e.metadata.meta.entry_type == Some(EntryMetaType::Relation) && (
    malformed_field_name(e.id) || reserved_field_name(e.id)) {
        seq![diag(sev, CheckDiagnosticKind::InvalidStructuralRelationField, Some(e.id), e.id, None)]
    } else {
        Seq::empty()
    };
    if entry.metadata.meta.is_intrinsic_field() && validate_intrinsic_field_name(
        entry.id.as_str(),
    ).is_err() {
        let d = make_diagnostic(
            sev,
            CheckDiagnosticKind::InvalidIntrinsicField,
            Some(&entry.id),
            entry.id.as_str(),
            None,
        );
        report.push(d);
    }
    assert(report@ =~= base + intrinsic);
    if entry.metadata.meta.is_structural_relation() && validate_structural_field_name(
        entry.id.as_str(),
    ).is_err() {
        let d = make_diagnostic(
            sev,
            CheckDiagnosticKind::InvalidStructuralRelationField,
            Some(&entry.id),
            entry.id.as_str(),
            None,
        );
        report.push(d);
    }
    assert(report@ =~= base + intrinsic + relation);
    push_field_diags(entries, entry, structural, sev, report);
    assert(report@ =~= base + entry_diags(es, structural@, e, sev));
}


/// The address `category`.
fn category_address() -> (r: EntryAddress)
    ensures
        r@ == category_field(),
{
    proof {
        reveal_strlit("category");
        assert(!crate::address::is_forbidden_address_char('c'));
    }
    EntryAddress::new("category").unwrap()
}

/// Category targets of all entries, each once, in text order.
fn collect_category_targets(entries: &[&Entry]) -> (r: Vec<EntryAddress>)
    ensures
        addresses_view(r@) == category_order(entries_view(entries@)),
{
    let ghost es = entries_view(entries@);
    let mut order: Vec<EntryAddress> = Vec::new();
    assert(addresses_view(order@) =~= Seq::<Seq<char>>::empty());
    let mut i: usize = 0;
    while i < entries.len()
        invariant
            i <= es.len(),
            es == entries_view(entries@),
            strictly_sorted(addresses_view(order@)),
            forall|t: Seq<char>| #[trigger]
                addresses_view(order@).contains(t) <==> category_target_upto(es, i as int, t),
        decreases es.len() - i,
    {
        let ghost prev = addresses_view(order@);
        if is_last(entries, i) {
            let targets = entries[i].metadata.structural_targets_for("category");
            let ghost tv = addresses_view(targets@);
            assert(tv == targets_of(es[i as int].metadata.structural, category_field()));
            let mut k: usize = 0;
            while k < targets.len()
                invariant
                    k <= tv.len(),
                    tv == addresses_view(targets@),
                    strictly_sorted(addresses_view(order@)),
                    forall|t: Seq<char>| #[trigger]
                        addresses_view(order@).contains(t) <==> (prev.contains(t) || exists|m: int|
                            0 <= m < k && tv[m] == t),
                decreases tv.len() - k,
            {
                insert_sorted(&mut order, &targets[k]);
                assert forall|t: Seq<char>| #[trigger]
                    addresses_view(order@).contains(t) <==> (prev.contains(t) || exists|m: int|
                        0 <= m < k + 1 && tv[m] == t) by {
                    if t == tv[k as int] {
                    }
                }
                k = k + 1;
            }
            assert forall|t: Seq<char>| #[trigger]
                addresses_view(order@).contains(t) <==> category_target_upto(
                    es,
                    i + 1,
                    t,
                ) by {
                if category_target_upto(es, i + 1, t) && !category_target_upto(es, i as int, t) {
                    let w = choose|w: int|
                        0 <= w < i + 1 && last_with_id(es, w) && #[trigger] has_target(
                            targets_of(es[w].metadata.structural, category_field()),
                            t,
                        );
                    assert(w == i);
                }
                if addresses_view(order@).contains(t) && !prev.contains(t) {
                    assert(has_target(tv, t));
                }
            }
        } else {
            assert forall|t: Seq<char>| #[trigger]
                addresses_view(order@).contains(t) <==> category_target_upto(
                    es,
                    i + 1,
                    t,
                ) by {
                if category_target_upto(es, i + 1, t) {
                    let w = choose|w: int|
                        0 <= w < i + 1 && last_with_id(es, w) && #[trigger] has_target(
                            targets_of(es[w].metadata.structural, category_field()),
                            t,
                        );
                    assert(w != i);
                }
            }
        }
        i = i + 1;
    }
    let ghost ov = addresses_view(order@);
    proof {
        let c = category_order(es);
        assert(strictly_sorted(ov) && forall|t: Seq<char>| #[trigger]
            ov.contains(t) <==> category_target_upto(es, es.len() as int, t));
        lemma_sorted_unique(ov, c);
    }
    order
}

/// Report category metadata problems.
fn push_category_diags(
    entries: &[&Entry],
    structural: &StructuralSettings,
    sev: CheckSeverity,
    report: &mut CheckReport,
)
    ensures
        final(report)@ == old(report)@ + category_diags(entries_view(entries@), structural@, sev),
{
    let ghost es = entries_view(entries@);
    let ghost rs = structural@;
    let ghost base = report@;
    proof {
        lemma_relation_index(rs, category_field());
    }
    let cat_id = match structural.entry_for_field("category") {
        Some(a) => a.clone(),
        None => category_address(),
    };
    assert(cat_id@ == category_id(rs));
    let order = collect_category_targets(entries);
    let ghost ov = addresses_view(order@);
    if order.len() == 0 && !structural.contains_field("category") {
        assert(report@ =~= base + category_diags(es, rs, sev));
        return ;
    }
    if !contains_id(entries, &cat_id) {
        let d = make_diagnostic(
            CheckSeverity::Warning,
            CheckDiagnosticKind::MissingCategoryEntry,
            None,
            "category",
            Some(&cat_id),
        );
        report.push(d);
    }
    let ghost head = report@;
    let mut k: usize = 0;
    assert(ov.take(0) =~= Seq::<Seq<char>>::empty());
    assert(head + Seq::<DiagnosticView>::empty() =~= head);
    while k < order.len()
        invariant
            k <= ov.len(),
            ov == addresses_view(order@),
            es == entries_view(entries@),
            report@ == head + marker_diags(es, cat_id@, ov.take(k as int), sev),
        decreases ov.len() - k,
    {
        assert(ov.take(k + 1).drop_last() =~= ov.take(k as int));
        assert(ov.take(k + 1).last() == ov[k as int]);
        proof {
            lemma_last_index_of(es, ov[k as int]);
        }
        match last_index(entries, &order[k]) {
            Some(idx) => {
                let cats = entries[idx].metadata.structural_targets_for("category");
                if !contains_address(&cats, &cat_id) {
                    let d = make_diagnostic(
                        sev,
                        CheckDiagnosticKind::CategoryTargetMissingCategoryMarker,
                        Some(&order[k]),
                        "category",
                        Some(&cat_id),
                    );
                    report.push(d);
                }
            },
            None => {},
        }
        assert(report@ =~= head + marker_diags(es, cat_id@, ov.take(k + 1), sev));
        k = k + 1;
    }
    assert(ov.take(k as int) =~= ov);
    assert(report@ =~= base + category_diags(es, rs, sev));
}

impl CheckMode {
    /// Check structural link targets for a set of entries.
    ///
    /// Parsing already enforces required fields, accepted field shapes and address syntax.
    /// This pass checks relation entries, typed metadata and target addresses.
    pub fn check_entries(self, entries: &[&Entry], meta: &MetaRegistry) -> (r: CheckReport)
        ensures
            r@ == check_spec(entries_view(entries@), meta.spec_structural(), self),
    {
        let ghost es = entries_view(entries@);
        let structural = meta.structural();
        let ghost rs = structural@;
        let severity = self.severity();
        let mut report = CheckReport::new();
        let mut i: usize = 0;
        assert(es.take(0) =~= Seq::<EntryView>::empty());
        while i < entries.len()
            invariant
                i <= es.len(),
                es == entries_view(entries@),
                rs == structural@,
                severity == mode_severity(self),
                report@ == entries_diags(es, rs, es.take(i as int), severity),
            decreases es.len() - i,
        {
            assert(es.take(i + 1).drop_last() =~= es.take(i as int));
            assert(es.take(i + 1).last() == es[i as int]);
            push_entry_diags(entries, entries[i], structural, severity, &mut report);
            i = i + 1;
        }
        assert(es.take(i as int) =~= es);
        push_category_diags(entries, structural, severity, &mut report);
        report
    }
}


/// Severity that a diagnostic of kind `k` gets at a boundary whose violations have severity `sev`.
pub open spec fn kind_severity(k: CheckDiagnosticKind, sev: CheckSeverity) -> CheckSeverity {
    match k {
        CheckDiagnosticKind::UninhabitedStructuralField => CheckSeverity::Warning,
        CheckDiagnosticKind::MissingCategoryEntry => CheckSeverity::Warning,
        _ => sev,
    }
}

/// Every diagnostic has the severity that its kind gets under `sev`.
pub open spec fn severities_follow(ds: Seq<DiagnosticView>, sev: CheckSeverity) -> bool {
    forall|i: int| 0 <= i < ds.len() ==> #[trigger] ds[i].severity == kind_severity(ds[i].kind, sev)
}

/// A diagnostic without its severity.
pub open spec fn diagnostic_shape(d: DiagnosticView) -> (
    CheckDiagnosticKind,
    Option<Seq<char>>,
    Seq<char>,
    Option<Seq<char>>,
) {
    (d.kind, d.entry, d.field, d.target)
}

/// Diagnostics without their severities.
pub open spec fn shapes(ds: Seq<DiagnosticView>) -> Seq<
    (CheckDiagnosticKind, Option<Seq<char>>, Seq<char>, Option<Seq<char>>),
> {
    ds.map_values(|d: DiagnosticView| diagnostic_shape(d))
}

proof fn lemma_concat(a: Seq<DiagnosticView>, b: Seq<DiagnosticView>, sev: CheckSeverity)
    ensures
        severities_follow(a, sev) && severities_follow(b, sev) ==> severities_follow(a + b, sev),
        shapes(a + b) == shapes(a) + shapes(b),
{
    assert(shapes(a + b) =~= shapes(a) + shapes(b));
    if severities_follow(a, sev) && severities_follow(b, sev) {
        assert forall|i: int| 0 <= i < (a + b).len() implies #[trigger] (a + b)[i].severity
            == kind_severity((a + b)[i].kind, sev) by {
            if i >= a.len() {
                assert((a + b)[i] == b[i - a.len()]);
            }
        }
    }
}

proof fn lemma_push(a: Seq<DiagnosticView>, d: DiagnosticView, sev: CheckSeverity)
    ensures
        severities_follow(a, sev) && d.severity == kind_severity(d.kind, sev) ==> severities_follow(
            a.push(d),
            sev,
        ),
        shapes(a.push(d)) == shapes(a).push(diagnostic_shape(d)),
{
    assert(shapes(a.push(d)) =~= shapes(a).push(diagnostic_shape(d)));
    if severities_follow(a, sev) && d.severity == kind_severity(d.kind, sev) {
        assert forall|i: int| 0 <= i < a.push(d).len() implies #[trigger] a.push(d)[i].severity
            == kind_severity(a.push(d)[i].kind, sev) by {
            if i < a.len() {
                assert(a.push(d)[i] == a[i]);
            }
        }
    }
}

proof fn lemma_target_diags(
    es: Seq<EntryView>,
    id: Seq<char>,
    field: Seq<char>,
    targets: Seq<Seq<char>>,
    s1: CheckSeverity,
    s2: CheckSeverity,
)
    ensures
        severities_follow(target_diags(es, id, field, targets, s1), s1),
        shapes(target_diags(es, id, field, targets, s1)) == shapes(
            target_diags(es, id, field, targets, s2),
        ),
    decreases targets.len(),
{
    if targets.len() == 0 {
        assert(shapes(Seq::<DiagnosticView>::empty()) =~= Seq::empty());
    } else {
        lemma_target_diags(es, id, field, targets.drop_last(), s1, s2);
        let t = targets.last();
        lemma_push(
            target_diags(es, id, field, targets.drop_last(), s1),
            diag(s1, CheckDiagnosticKind::MissingTarget, Some(id), field, Some(t)),
            s1,
        );
        lemma_push(
            target_diags(es, id, field, targets.drop_last(), s2),
            diag(s2, CheckDiagnosticKind::MissingTarget, Some(id), field, Some(t)),
            s2,
        );
    }
}

proof fn lemma_field_diags(
    es: Seq<EntryView>,
    rs: Seq<(Seq<char>, Option<Seq<char>>)>,
    id: Seq<char>,
    fields: Seq<FieldView>,
    s1: CheckSeverity,
    s2: CheckSeverity,
)
    ensures
        severities_follow(field_diags(es, rs, id, fields, s1), s1),
        shapes(field_diags(es, rs, id, fields, s1)) == shapes(field_diags(es, rs, id, fields, s2)),
    decreases fields.len(),
{
    if fields.len() == 0 {
        assert(shapes(Seq::<DiagnosticView>::empty()) =~= Seq::empty());
    } else {
        let f = fields.last();
        let r1 = field_diags(es, rs, id, fields.drop_last(), s1);
        let r2 = field_diags(es, rs, id, fields.drop_last(), s2);
        lemma_field_diags(es, rs, id, fields.drop_last(), s1, s2);
        let u = diag(
            CheckSeverity::Warning,
            CheckDiagnosticKind::UninhabitedStructuralField,
            Some(id),
            f.0,
            None,
        );
        lemma_push(r1, u, s1);
        lemma_push(r2, u, s2);
        lemma_target_diags(es, id, f.0, f.1, s1, s2);
        lemma_concat(r1, target_diags(es, id, f.0, f.1, s1), s1);
        lemma_concat(r2, target_diags(es, id, f.0, f.1, s2), s2);
    }
}

proof fn lemma_entry_diags(
    es: Seq<EntryView>,
    rs: Seq<(Seq<char>, Option<Seq<char>>)>,
    e: EntryView,
    s1: CheckSeverity,
    s2: CheckSeverity,
)
    ensures
        severities_follow(entry_diags(es, rs, e, s1), s1),
        shapes(entry_diags(es, rs, e, s1)) == shapes(entry_diags(es, rs, e, s2)),
{
    let intrinsic = |s: CheckSeverity|
        if e.metadata.meta.entry_type == Some(EntryMetaType::Intrinsic) && !intrinsic_field_name(
            e.id,
        ) {
            seq![diag(s, CheckDiagnosticKind::InvalidIntrinsicField, Some(e.id), e.id, None)]
        } else {
            Seq::empty()
        };
    let relation = |s: CheckSeverity|
        if e.metadata.meta.entry_type == Some(EntryMetaType::Relation) && (malformed_field_name(
            e.id,
        ) || reserved_field_name(e.id)) {
            seq![
                diag(
                    s,
                    CheckDiagnosticKind::InvalidStructuralRelationField,
                    Some(e.id),
                    e.id,
                    None,
                ),
            ]
        } else {
            Seq::empty()
        };
    assert(shapes(intrinsic(s1)) =~= shapes(intrinsic(s2)));
    assert(shapes(relation(s1)) =~= shapes(relation(s2)));
    assert(severities_follow(intrinsic(s1), s1));
    assert(severities_follow(relation(s1), s1));
    lemma_field_diags(es, rs, e.id, e.metadata.structural, s1, s2);
    lemma_concat(intrinsic(s1), relation(s1), s1);
    lemma_concat(intrinsic(s2), relation(s2), s2);
    lemma_concat(
        intrinsic(s1) + relation(s1),
        field_diags(es, rs, e.id, e.metadata.structural, s1),
        s1,
    );
    lemma_concat(
        intrinsic(s2) + relation(s2),
        field_diags(es, rs, e.id, e.metadata.structural, s2),
        s2,
    );
    assert(entry_diags(es, rs, e, s1) == intrinsic(s1) + relation(s1) + field_diags(
        es,
        rs,
        e.id,
        e.metadata.structural,
        s1,
    ));
    assert(entry_diags(es, rs, e, s2) == intrinsic(s2) + relation(s2) + field_diags(
        es,
        rs,
        e.id,
        e.metadata.structural,
        s2,
    ));
}

proof fn lemma_entries_diags(
    es: Seq<EntryView>,
    rs: Seq<(Seq<char>, Option<Seq<char>>)>,
    prefix: Seq<EntryView>,
    s1: CheckSeverity,
    s2: CheckSeverity,
)
    ensures
        severities_follow(entries_diags(es, rs, prefix, s1), s1),
        shapes(entries_diags(es, rs, prefix, s1)) == shapes(entries_diags(es, rs, prefix, s2)),
    decreases prefix.len(),
{
    if prefix.len() == 0 {
        assert(shapes(Seq::<DiagnosticView>::empty()) =~= Seq::empty());
    } else {
        lemma_entries_diags(es, rs, prefix.drop_last(), s1, s2);
        lemma_entry_diags(es, rs, prefix.last(), s1, s2);
        lemma_concat(
            entries_diags(es, rs, prefix.drop_last(), s1),
            entry_diags(es, rs, prefix.last(), s1),
            s1,
        );
        lemma_concat(
            entries_diags(es, rs, prefix.drop_last(), s2),
            entry_diags(es, rs, prefix.last(), s2),
            s2,
        );
    }
}

proof fn lemma_marker_diags(
    es: Seq<EntryView>,
    cat: Seq<char>,
    order: Seq<Seq<char>>,
    s1: CheckSeverity,
    s2: CheckSeverity,
)
    ensures
        severities_follow(marker_diags(es, cat, order, s1), s1),
        shapes(marker_diags(es, cat, order, s1)) == shapes(marker_diags(es, cat, order, s2)),
    decreases order.len(),
{
    if order.len() == 0 {
        assert(shapes(Seq::<DiagnosticView>::empty()) =~= Seq::empty());
    } else {
        lemma_marker_diags(es, cat, order.drop_last(), s1, s2);
        let t = order.last();
        let mk = |s: CheckSeverity|
            diag(
                s,
                CheckDiagnosticKind::CategoryTargetMissingCategoryMarker,
                Some(t),
                category_field(),
                Some(cat),
            );
        lemma_push(marker_diags(es, cat, order.drop_last(), s1), mk(s1), s1);
        lemma_push(marker_diags(es, cat, order.drop_last(), s2), mk(s2), s2);
    }
}

proof fn lemma_category_diags(
    es: Seq<EntryView>,
    rs: Seq<(Seq<char>, Option<Seq<char>>)>,
    s1: CheckSeverity,
    s2: CheckSeverity,
)
    ensures
        severities_follow(category_diags(es, rs, s1), s1),
        shapes(category_diags(es, rs, s1)) == shapes(category_diags(es, rs, s2)),
{
    let order = category_order(es);
    let cat = category_id(rs);
    lemma_marker_diags(es, cat, order, s1, s2);
    let missing: Seq<DiagnosticView> = if has_id(es, cat) {
        Seq::empty()
    } else {
        seq![
            diag(
                CheckSeverity::Warning,
                CheckDiagnosticKind::MissingCategoryEntry,
                None,
                category_field(),
                Some(cat),
            ),
        ]
    };
    assert(severities_follow(missing, s1));
    assert(severities_follow(missing, s2));
    lemma_concat(missing, marker_diags(es, cat, order, s1), s1);
    lemma_concat(missing, marker_diags(es, cat, order, s2), s2);
    assert(shapes(Seq::<DiagnosticView>::empty()) =~= Seq::empty());
}

/// Every diagnostic of a check has the severity that its kind gets at the boundary:
/// an undefined link relation and a missing category entry are warnings, every other
/// violation has the boundary's severity.
pub proof fn law_check_severities(
    es: Seq<EntryView>,
    rs: Seq<(Seq<char>, Option<Seq<char>>)>,
    mode: CheckMode,
)
    ensures
        severities_follow(check_spec(es, rs, mode), mode_severity(mode)),
{
    let sev = mode_severity(mode);
    lemma_entries_diags(es, rs, es, sev, sev);
    lemma_category_diags(es, rs, sev, sev);
    lemma_concat(entries_diags(es, rs, es, sev), category_diags(es, rs, sev), sev);
}

/// Editing checks never report an error.
pub proof fn law_edit_mode_has_no_errors(es: Seq<EntryView>, rs: Seq<(Seq<char>, Option<Seq<char>>)>)
    ensures
        !any_error(check_spec(es, rs, CheckMode::Edit)),
{
    law_check_severities(es, rs, CheckMode::Edit);
    let ds = check_spec(es, rs, CheckMode::Edit);
    assert forall|i: int| 0 <= i < ds.len() implies ds[i].severity != CheckSeverity::Error by {
        assert(ds[i].severity == kind_severity(ds[i].kind, CheckSeverity::Warning));
    }
}

/// Editing and review checks find the same problems, in the same order; only severities differ.
pub proof fn law_modes_find_same_problems(
    es: Seq<EntryView>,
    rs: Seq<(Seq<char>, Option<Seq<char>>)>,
)
    ensures
        shapes(check_spec(es, rs, CheckMode::Edit)) == shapes(
            check_spec(es, rs, CheckMode::Review),
        ),
        check_spec(es, rs, CheckMode::Edit).len() == check_spec(es, rs, CheckMode::Review).len(),
{
    let w = CheckSeverity::Warning;
    let e = CheckSeverity::Error;
    lemma_entries_diags(es, rs, es, w, e);
    lemma_category_diags(es, rs, w, e);
    lemma_concat(entries_diags(es, rs, es, w), category_diags(es, rs, w), w);
    lemma_concat(entries_diags(es, rs, es, e), category_diags(es, rs, e), e);
    assert(shapes(check_spec(es, rs, CheckMode::Edit)).len() == check_spec(
        es,
        rs,
        CheckMode::Edit,
    ).len());
}

/// `d` reports that a target of field `field` of entry `id` names no entry.
pub open spec fn is_missing_target(d: DiagnosticView, id: Seq<char>, field: Seq<char>) -> bool {
    d.kind == CheckDiagnosticKind::MissingTarget && d.entry == Some(id) && d.field == field
}

/// Selects the missing-target diagnostics of field `field` of entry `id`.
pub open spec fn missing_target_of(id: Seq<char>, field: Seq<char>) -> spec_fn(DiagnosticView) -> bool {
    |d: DiagnosticView| is_missing_target(d, id, field)
}

/// Selects the addresses that name no entry of `es`.
pub open spec fn names_no_entry(es: Seq<EntryView>) -> spec_fn(Seq<char>) -> bool {
    |t: Seq<char>| !has_id(es, t)
}

/// Entry addresses are pairwise distinct.
pub open spec fn unique_ids(es: Seq<EntryView>) -> bool {
    forall|a: int, b: int| 0 <= a < es.len() && 0 <= b < es.len() && a != b ==> #[trigger] es[a].id != #[trigger] es[b].id
}

proof fn lemma_filter_all<A>(s: Seq<A>, p: spec_fn(A) -> bool)
    requires
        forall|n: int| 0 <= n < s.len() ==> #[trigger] p(s[n]),
    ensures
        s.filter(p) == s,
    decreases s.len(),
{
    reveal(Seq::filter);
    if s.len() > 0 {
        assert forall|n: int| 0 <= n < s.drop_last().len() implies #[trigger] p(s.drop_last()[n]) by {
            assert(s.drop_last()[n] == s[n]);
        }
        lemma_filter_all(s.drop_last(), p);
        assert(p(s[s.len() - 1]));
        assert(s.drop_last().push(s.last()) =~= s);
    }
}

proof fn lemma_filter_none<A>(s: Seq<A>, p: spec_fn(A) -> bool)
    requires
        forall|n: int| 0 <= n < s.len() ==> !#[trigger] p(s[n]),
    ensures
        s.filter(p).len() == 0,
    decreases s.len(),
{
    reveal(Seq::filter);
    if s.len() > 0 {
        assert forall|n: int| 0 <= n < s.drop_last().len() implies !#[trigger] p(s.drop_last()[n]) by {
            assert(s.drop_last()[n] == s[n]);
        }
        lemma_filter_none(s.drop_last(), p);
        assert(!p(s[s.len() - 1]));
    }
}

proof fn lemma_contains_left(a: Seq<DiagnosticView>, b: Seq<DiagnosticView>, d: DiagnosticView)
    requires
        a.contains(d),
    ensures
        (a + b).contains(d),
{
    let m = choose|m: int| 0 <= m < a.len() && a[m] == d;
    assert((a + b)[m] == d);
}

proof fn lemma_contains_right(a: Seq<DiagnosticView>, b: Seq<DiagnosticView>, d: DiagnosticView)
    requires
        b.contains(d),
    ensures
        (a + b).contains(d),
{
    let m = choose|m: int| 0 <= m < b.len() && b[m] == d;
    assert((a + b)[a.len() + m] == d);
}

proof fn lemma_target_diags_missing(
    es: Seq<EntryView>,
    id: Seq<char>,
    field: Seq<char>,
    ts: Seq<Seq<char>>,
    sev: CheckSeverity,
)
    ensures
        forall|n: int|
            0 <= n < target_diags(es, id, field, ts, sev).len() ==> is_missing_target(
                #[trigger] target_diags(es, id, field, ts, sev)[n],
                id,
                field,
            ),
        target_diags(es, id, field, ts, sev).len() == ts.filter(names_no_entry(es)).len(),
        forall|k: int|
            0 <= k < ts.len() && !has_id(es, ts[k]) ==> #[trigger] target_diags(
                es,
                id,
                field,
                ts,
                sev,
            ).contains(diag(sev, CheckDiagnosticKind::MissingTarget, Some(id), field, Some(ts[k]))),
    decreases ts.len(),
{
    reveal(Seq::filter);
    if ts.len() > 0 {
        let r = ts.drop_last();
        lemma_target_diags_missing(es, id, field, r, sev);
        let rest = target_diags(es, id, field, r, sev);
        let all = target_diags(es, id, field, ts, sev);
        let t = ts.last();
        let d = diag(sev, CheckDiagnosticKind::MissingTarget, Some(id), field, Some(t));
        assert(names_no_entry(es)(t) == !has_id(es, t));
        assert forall|k: int| 0 <= k < ts.len() && !has_id(es, ts[k]) implies #[trigger] all.contains(
            diag(sev, CheckDiagnosticKind::MissingTarget, Some(id), field, Some(ts[k])),
        ) by {
            let x = diag(sev, CheckDiagnosticKind::MissingTarget, Some(id), field, Some(ts[k]));
            if k < ts.len() - 1 {
                assert(r[k] == ts[k]);
                assert(rest.contains(x));
                let m = choose|m: int| 0 <= m < rest.len() && rest[m] == x;
                if !has_id(es, t) {
                    assert(rest.push(d)[m] == x);
                }
                assert(all[m] == x);
            } else {
                assert(all[rest.len() as int] == x);
            }
        }
    }
}

proof fn lemma_field_diags_entry(
    es: Seq<EntryView>,
    rs: Seq<(Seq<char>, Option<Seq<char>>)>,
    id: Seq<char>,
    fields: Seq<FieldView>,
    sev: CheckSeverity,
)
    ensures
        forall|n: int|
            0 <= n < field_diags(es, rs, id, fields, sev).len() ==> (#[trigger] field_diags(
                es,
                rs,
                id,
                fields,
                sev,
            )[n]).entry == Some(id) && exists|m: int|
                0 <= m < fields.len() && fields[m].0 == field_diags(es, rs, id, fields, sev)[n].field,
    decreases fields.len(),
{
    if fields.len() > 0 {
        let r = fields.drop_last();
        let f = fields.last();
        lemma_field_diags_entry(es, rs, id, r, sev);
        lemma_target_diags_missing(es, id, f.0, f.1, sev);
        let rest = field_diags(es, rs, id, r, sev);
        let all = field_diags(es, rs, id, fields, sev);
        let td = target_diags(es, id, f.0, f.1, sev);
        assert forall|n: int| 0 <= n < all.len() implies (#[trigger] all[n]).entry == Some(id) && exists|m: int|
            0 <= m < fields.len() && fields[m].0 == all[n].field by {
            if n < rest.len() {
                assert(all[n] == rest[n]);
                let m = choose|m: int| 0 <= m < r.len() && r[m].0 == rest[n].field;
                assert(fields[m] == r[m]);
            } else {
                if has_relation(rs, f.0) {
                    assert(all[n] == td[n - rest.len()]);
                    assert(is_missing_target(td[n - rest.len()], id, f.0));
                }
                assert(fields[fields.len() - 1].0 == all[n].field);
            }
        }
    }
}

proof fn lemma_field_diags_missing(
    es: Seq<EntryView>,
    rs: Seq<(Seq<char>, Option<Seq<char>>)>,
    id: Seq<char>,
    fields: Seq<FieldView>,
    sev: CheckSeverity,
    k: int,
)
    requires
        0 <= k < fields.len(),
        has_relation(rs, fields[k].0),
    ensures
        forall|j: int|
            0 <= j < fields[k].1.len() && !has_id(es, fields[k].1[j]) ==> #[trigger] field_diags(
                es,
                rs,
                id,
                fields,
                sev,
            ).contains(
                diag(sev, CheckDiagnosticKind::MissingTarget, Some(id), fields[k].0, Some(fields[k].1[j])),
            ),
        unique_fields(fields) ==> field_diags(es, rs, id, fields, sev).filter(
            missing_target_of(id, fields[k].0),
        ).len() == fields[k].1.filter(names_no_entry(es)).len(),
    decreases fields.len(),
{
    let r = fields.drop_last();
    let f = fields.last();
    let p = missing_target_of(id, fields[k].0);
    let rest = field_diags(es, rs, id, r, sev);
    let td = target_diags(es, id, f.0, f.1, sev);
    lemma_target_diags_missing(es, id, f.0, f.1, sev);
    assert(has_relation(rs, f.0) ==> field_diags(es, rs, id, fields, sev) == rest + td);
    if k == fields.len() - 1 {
        assert forall|j: int| 0 <= j < fields[k].1.len() && !has_id(es, fields[k].1[j]) implies #[trigger] field_diags(
            es,
            rs,
            id,
            fields,
            sev,
        ).contains(
            diag(sev, CheckDiagnosticKind::MissingTarget, Some(id), fields[k].0, Some(fields[k].1[j])),
        ) by {
            lemma_contains_right(
                rest,
                td,
                diag(sev, CheckDiagnosticKind::MissingTarget, Some(id), fields[k].0, Some(fields[k].1[j])),
            );
        }
        if unique_fields(fields) {
            lemma_field_diags_entry(es, rs, id, r, sev);
            assert forall|n: int| 0 <= n < rest.len() implies !#[trigger] p(rest[n]) by {
                let m = choose|m: int| 0 <= m < r.len() && r[m].0 == rest[n].field;
                assert(fields[m] == r[m]);
            }
            lemma_filter_none(rest, p);
            assert forall|n: int| 0 <= n < td.len() implies #[trigger] p(td[n]) by {}
            lemma_filter_all(td, p);
            Seq::filter_distributes_over_add(rest, td, p);
        }
    } else {
        assert(r[k] == fields[k]);
        lemma_field_diags_missing(es, rs, id, r, sev, k);
        assert forall|j: int| 0 <= j < fields[k].1.len() && !has_id(es, fields[k].1[j]) implies #[trigger] field_diags(
            es,
            rs,
            id,
            fields,
            sev,
        ).contains(
            diag(sev, CheckDiagnosticKind::MissingTarget, Some(id), fields[k].0, Some(fields[k].1[j])),
        ) by {
            let x = diag(sev, CheckDiagnosticKind::MissingTarget, Some(id), fields[k].0, Some(fields[k].1[j]));
            assert(rest.contains(x));
            if has_relation(rs, f.0) {
                lemma_contains_left(rest, td, x);
            } else {
                let m = choose|m: int| 0 <= m < rest.len() && rest[m] == x;
                let u = diag(
                    CheckSeverity::Warning,
                    CheckDiagnosticKind::UninhabitedStructuralField,
                    Some(id),
                    f.0,
                    None,
                );
                assert(rest.push(u)[m] == x);
            }
        }
        if unique_fields(fields) {
            assert(unique_fields(r));
            assert(fields[fields.len() - 1].0 != fields[k].0);
            if has_relation(rs, f.0) {
                assert forall|n: int| 0 <= n < td.len() implies !#[trigger] p(td[n]) by {}
                lemma_filter_none(td, p);
                Seq::filter_distributes_over_add(rest, td, p);
            } else {
                let u = diag(
                    CheckSeverity::Warning,
                    CheckDiagnosticKind::UninhabitedStructuralField,
                    Some(id),
                    f.0,
                    None,
                );
                assert(!p(u));
                rest.lemma_filter_push(u, p);
            }
        }
    }
}

proof fn lemma_entry_diags_entry(
    es: Seq<EntryView>,
    rs: Seq<(Seq<char>, Option<Seq<char>>)>,
    e: EntryView,
    sev: CheckSeverity,
)
    ensures
        forall|n: int|
            0 <= n < entry_diags(es, rs, e, sev).len() ==> (#[trigger] entry_diags(es, rs, e, sev)[n]).entry
                == Some(e.id),
{
    let fd = field_diags(es, rs, e.id, e.metadata.structural, sev);
    let all = entry_diags(es, rs, e, sev);
    lemma_field_diags_entry(es, rs, e.id, e.metadata.structural, sev);
    let head = all.subrange(0, all.len() - fd.len());
    assert(all == head + fd);
    assert forall|n: int| 0 <= n < all.len() implies (#[trigger] all[n]).entry == Some(e.id) by {
        if n >= head.len() {
            assert(all[n] == fd[n - head.len()]);
        }
    }
}

proof fn lemma_entry_diags_missing(
    es: Seq<EntryView>,
    rs: Seq<(Seq<char>, Option<Seq<char>>)>,
    e: EntryView,
    sev: CheckSeverity,
    k: int,
)
    requires
        0 <= k < e.metadata.structural.len(),
        has_relation(rs, e.metadata.structural[k].0),
    ensures
        forall|j: int|
            0 <= j < e.metadata.structural[k].1.len() && !has_id(es, e.metadata.structural[k].1[j])
                ==> #[trigger] entry_diags(es, rs, e, sev).contains(
                diag(
                    sev,
                    CheckDiagnosticKind::MissingTarget,
                    Some(e.id),
                    e.metadata.structural[k].0,
                    Some(e.metadata.structural[k].1[j]),
                ),
            ),
        unique_fields(e.metadata.structural) ==> entry_diags(es, rs, e, sev).filter(
            missing_target_of(e.id, e.metadata.structural[k].0),
        ).len() == e.metadata.structural[k].1.filter(names_no_entry(es)).len(),
{
    let fields = e.metadata.structural;
    let fd = field_diags(es, rs, e.id, fields, sev);
    let all = entry_diags(es, rs, e, sev);
    let head = all.subrange(0, all.len() - fd.len());
    assert(all == head + fd);
    lemma_field_diags_missing(es, rs, e.id, fields, sev, k);
    assert forall|j: int| 0 <= j < fields[k].1.len() && !has_id(es, fields[k].1[j]) implies #[trigger] all.contains(
        diag(sev, CheckDiagnosticKind::MissingTarget, Some(e.id), fields[k].0, Some(fields[k].1[j])),
    ) by {
        lemma_contains_right(
            head,
            fd,
            diag(sev, CheckDiagnosticKind::MissingTarget, Some(e.id), fields[k].0, Some(fields[k].1[j])),
        );
    }
    let p = missing_target_of(e.id, fields[k].0);
    assert forall|n: int| 0 <= n < head.len() implies !#[trigger] p(head[n]) by {
        assert(head[n] == all[n]);
    }
    lemma_filter_none(head, p);
    Seq::filter_distributes_over_add(head, fd, p);
}

proof fn lemma_entries_diags_none(
    es: Seq<EntryView>,
    rs: Seq<(Seq<char>, Option<Seq<char>>)>,
    q: Seq<EntryView>,
    sev: CheckSeverity,
    x: Seq<char>,
    f: Seq<char>,
)
    requires
        forall|m: int| 0 <= m < q.len() ==> (#[trigger] q[m]).id != x,
    ensures
        entries_diags(es, rs, q, sev).filter(missing_target_of(x, f)).len() == 0,
    decreases q.len(),
{
    reveal(Seq::filter);
    if q.len() > 0 {
        let r = q.drop_last();
        assert forall|m: int| 0 <= m < r.len() implies (#[trigger] r[m]).id != x by {
            assert(r[m] == q[m]);
        }
        lemma_entries_diags_none(es, rs, r, sev, x, f);
        let last = q.last();
        let ed = entry_diags(es, rs, last, sev);
        let p = missing_target_of(x, f);
        lemma_entry_diags_entry(es, rs, last, sev);
        assert(q[q.len() - 1].id != x);
        assert forall|n: int| 0 <= n < ed.len() implies !#[trigger] p(ed[n]) by {}
        lemma_filter_none(ed, p);
        Seq::filter_distributes_over_add(entries_diags(es, rs, r, sev), ed, p);
    }
}

proof fn lemma_entries_diags_missing(
    es: Seq<EntryView>,
    rs: Seq<(Seq<char>, Option<Seq<char>>)>,
    q: Seq<EntryView>,
    sev: CheckSeverity,
    i: int,
    f: Seq<char>,
)
    requires
        0 <= i < q.len(),
    ensures
        forall|d: DiagnosticView|
            entry_diags(es, rs, q[i], sev).contains(d) ==> #[trigger] entries_diags(
                es,
                rs,
                q,
                sev,
            ).contains(d),
        unique_ids(q) ==> entries_diags(es, rs, q, sev).filter(missing_target_of(q[i].id, f)).len()
            == entry_diags(es, rs, q[i], sev).filter(missing_target_of(q[i].id, f)).len(),
    decreases q.len(),
{
    let r = q.drop_last();
    let rest = entries_diags(es, rs, r, sev);
    let ed = entry_diags(es, rs, q.last(), sev);
    let p = missing_target_of(q[i].id, f);
    assert(entries_diags(es, rs, q, sev) == rest + ed);
    if i == q.len() - 1 {
        assert forall|d: DiagnosticView| ed.contains(d) implies #[trigger] entries_diags(
            es,
            rs,
            q,
            sev,
        ).contains(d) by {
            lemma_contains_right(rest, ed, d);
        }
        if unique_ids(q) {
            assert forall|m: int| 0 <= m < r.len() implies (#[trigger] r[m]).id != q[i].id by {
                assert(r[m] == q[m]);
            }
            lemma_entries_diags_none(es, rs, r, sev, q[i].id, f);
            Seq::filter_distributes_over_add(rest, ed, p);
        }
    } else {
        assert(r[i] == q[i]);
        lemma_entries_diags_missing(es, rs, r, sev, i, f);
        assert forall|d: DiagnosticView| entry_diags(es, rs, q[i], sev).contains(d) implies #[trigger] entries_diags(
            es,
            rs,
            q,
            sev,
        ).contains(d) by {
            assert(rest.contains(d));
            lemma_contains_left(rest, ed, d);
        }
        if unique_ids(q) {
            assert(unique_ids(r)) by {
                assert forall|a: int, b: int| 0 <= a < r.len() && 0 <= b < r.len() && a != b implies #[trigger] r[a].id
                    != #[trigger] r[b].id by {
                    assert(r[a] == q[a] && r[b] == q[b]);
                }
            }
            lemma_entry_diags_entry(es, rs, q.last(), sev);
            assert(q[q.len() - 1].id != q[i].id);
            assert forall|n: int| 0 <= n < ed.len() implies !#[trigger] p(ed[n]) by {}
            lemma_filter_none(ed, p);
            Seq::filter_distributes_over_add(rest, ed, p);
        }
    }
}

proof fn lemma_marker_diags_kind(
    es: Seq<EntryView>,
    cat: Seq<char>,
    order: Seq<Seq<char>>,
    sev: CheckSeverity,
)
    ensures
        forall|n: int|
            0 <= n < marker_diags(es, cat, order, sev).len() ==> (#[trigger] marker_diags(
                es,
                cat,
                order,
                sev,
            )[n]).kind == CheckDiagnosticKind::CategoryTargetMissingCategoryMarker,
    decreases order.len(),
{
    if order.len() > 0 {
        lemma_marker_diags_kind(es, cat, order.drop_last(), sev);
    }
}

proof fn lemma_category_diags_none(
    es: Seq<EntryView>,
    rs: Seq<(Seq<char>, Option<Seq<char>>)>,
    sev: CheckSeverity,
    x: Seq<char>,
    f: Seq<char>,
)
    ensures
        category_diags(es, rs, sev).filter(missing_target_of(x, f)).len() == 0,
{
    let cd = category_diags(es, rs, sev);
    let p = missing_target_of(x, f);
    lemma_marker_diags_kind(es, category_id(rs), category_order(es), sev);
    let md = marker_diags(es, category_id(rs), category_order(es), sev);
    assert forall|n: int| 0 <= n < cd.len() implies !#[trigger] p(cd[n]) by {
        if !(category_order(es).len() == 0 && !has_relation(rs, category_field())) {
            let head = cd.subrange(0, cd.len() - md.len());
            assert(cd == head + md);
            if n >= head.len() {
                assert(cd[n] == md[n - head.len()]);
            }
        }
    }
    lemma_filter_none(cd, p);
}

/// Every target listed under a configured structural field that names no entry is reported:
/// the report holds a missing-target diagnostic for that entry, field and target, with the
/// boundary's severity.
pub proof fn law_missing_targets_reported(
    es: Seq<EntryView>,
    rs: Seq<(Seq<char>, Option<Seq<char>>)>,
    mode: CheckMode,
    i: int,
    k: int,
    j: int,
)
    requires
        0 <= i < es.len(),
        0 <= k < es[i].metadata.structural.len(),
        has_relation(rs, es[i].metadata.structural[k].0),
        0 <= j < es[i].metadata.structural[k].1.len(),
        !has_id(es, es[i].metadata.structural[k].1[j]),
    ensures
        check_spec(es, rs, mode).contains(
            diag(
                mode_severity(mode),
                CheckDiagnosticKind::MissingTarget,
                Some(es[i].id),
                es[i].metadata.structural[k].0,
                Some(es[i].metadata.structural[k].1[j]),
            ),
        ),
{
    let sev = mode_severity(mode);
    let f = es[i].metadata.structural[k];
    let x = diag(sev, CheckDiagnosticKind::MissingTarget, Some(es[i].id), f.0, Some(f.1[j]));
    lemma_entry_diags_missing(es, rs, es[i], sev, k);
    assert(entry_diags(es, rs, es[i], sev).contains(x));
    lemma_entries_diags_missing(es, rs, es, sev, i, f.0);
    assert(entries_diags(es, rs, es, sev).contains(x));
    lemma_contains_left(entries_diags(es, rs, es, sev), category_diags(es, rs, sev), x);
}

/// With distinct entry addresses, the report holds exactly one missing-target diagnostic for
/// an entry and a configured structural field of it per listed target that names no entry.
pub proof fn law_missing_target_count(
    es: Seq<EntryView>,
    rs: Seq<(Seq<char>, Option<Seq<char>>)>,
    mode: CheckMode,
    i: int,
    k: int,
)
    requires
        unique_ids(es),
        0 <= i < es.len(),
        unique_fields(es[i].metadata.structural),
        0 <= k < es[i].metadata.structural.len(),
        has_relation(rs, es[i].metadata.structural[k].0),
    ensures
        check_spec(es, rs, mode).filter(
            missing_target_of(es[i].id, es[i].metadata.structural[k].0),
        ).len() == es[i].metadata.structural[k].1.filter(names_no_entry(es)).len(),
{
    let sev = mode_severity(mode);
    let f = es[i].metadata.structural[k];
    let p = missing_target_of(es[i].id, f.0);
    lemma_entry_diags_missing(es, rs, es[i], sev, k);
    lemma_entries_diags_missing(es, rs, es, sev, i, f.0);
    lemma_category_diags_none(es, rs, sev, es[i].id, f.0);
    Seq::filter_distributes_over_add(entries_diags(es, rs, es, sev), category_diags(es, rs, sev), p);
}

/// Field `field` of `fields` is a configured relation and lists target `t`.
pub open spec fn field_lists_target(
    fields: Seq<FieldView>,
    rs: Seq<(Seq<char>, Option<Seq<char>>)>,
    field: Seq<char>,
    t: Seq<char>,
) -> bool {
    exists|k: int|
        0 <= k < fields.len() && #[trigger] fields[k].0 == field && has_relation(rs, field)
            && has_target(fields[k].1, t)
}

/// `d` is a missing-target diagnostic of severity `sev` for a target that names no entry of
/// `es`, listed under a configured field of an entry of `q` whose address `d` names.
pub open spec fn sound_missing_target(
    es: Seq<EntryView>,
    rs: Seq<(Seq<char>, Option<Seq<char>>)>,
    q: Seq<EntryView>,
    sev: CheckSeverity,
    d: DiagnosticView,
) -> bool {
    &&& d.severity == sev
    &&& d.entry is Some
    &&& d.target is Some
    &&& !has_id(es, d.target->0)
    &&& exists|i: int|
        0 <= i < q.len() && #[trigger] q[i].id == d.entry->0 && field_lists_target(
            q[i].metadata.structural,
            rs,
            d.field,
            d.target->0,
        )
}

proof fn lemma_target_diags_sound(
    es: Seq<EntryView>,
    id: Seq<char>,
    field: Seq<char>,
    ts: Seq<Seq<char>>,
    sev: CheckSeverity,
)
    ensures
        forall|n: int|
            0 <= n < target_diags(es, id, field, ts, sev).len() ==> {
                let d = #[trigger] target_diags(es, id, field, ts, sev)[n];
                &&& d.severity == sev
                &&& d.target is Some
                &&& has_target(ts, d.target->0)
                &&& !has_id(es, d.target->0)
            },
    decreases ts.len(),
{
    if ts.len() > 0 {
        let r = ts.drop_last();
        lemma_target_diags_sound(es, id, field, r, sev);
        let rest = target_diags(es, id, field, r, sev);
        let all = target_diags(es, id, field, ts, sev);
        assert forall|n: int| 0 <= n < all.len() implies {
            let d = #[trigger] all[n];
            &&& d.severity == sev
            &&& d.target is Some
            &&& has_target(ts, d.target->0)
            &&& !has_id(es, d.target->0)
        } by {
            if n < rest.len() {
                assert(all[n] == rest[n]);
                let t = rest[n].target->0;
                let j = choose|j: int| 0 <= j < r.len() && r[j] == t;
                assert(ts[j] == t);
            } else {
                assert(ts[ts.len() - 1] == ts.last());
            }
        }
    }
}

proof fn lemma_field_diags_sound(
    es: Seq<EntryView>,
    rs: Seq<(Seq<char>, Option<Seq<char>>)>,
    id: Seq<char>,
    fields: Seq<FieldView>,
    sev: CheckSeverity,
)
    ensures
        forall|n: int|
            0 <= n < field_diags(es, rs, id, fields, sev).len() && (#[trigger] field_diags(
                es,
                rs,
                id,
                fields,
                sev,
            )[n]).kind == CheckDiagnosticKind::MissingTarget ==> {
                let d = field_diags(es, rs, id, fields, sev)[n];
                &&& d.severity == sev
                &&& d.entry == Some(id)
                &&& d.target is Some
                &&& !has_id(es, d.target->0)
                &&& field_lists_target(fields, rs, d.field, d.target->0)
            },
    decreases fields.len(),
{
    if fields.len() > 0 {
        let r = fields.drop_last();
        let f = fields.last();
        lemma_field_diags_sound(es, rs, id, r, sev);
        lemma_field_diags_entry(es, rs, id, r, sev);
        lemma_target_diags_sound(es, id, f.0, f.1, sev);
        lemma_target_diags_missing(es, id, f.0, f.1, sev);
        let rest = field_diags(es, rs, id, r, sev);
        let all = field_diags(es, rs, id, fields, sev);
        let td = target_diags(es, id, f.0, f.1, sev);
        assert forall|n: int|
            0 <= n < all.len() && (#[trigger] all[n]).kind == CheckDiagnosticKind::MissingTarget implies {
            let d = all[n];
            &&& d.severity == sev
            &&& d.entry == Some(id)
            &&& d.target is Some
            &&& !has_id(es, d.target->0)
            &&& field_lists_target(fields, rs, d.field, d.target->0)
        } by {
            let d = all[n];
            if n < rest.len() {
                assert(all[n] == rest[n]);
                let k = choose|k: int|
                    0 <= k < r.len() && #[trigger] r[k].0 == d.field && has_relation(rs, d.field)
                        && has_target(r[k].1, d.target->0);
                assert(fields[k] == r[k]);
            } else {
                assert(has_relation(rs, f.0));
                assert(all[n] == td[n - rest.len()]);
                assert(is_missing_target(td[n - rest.len()], id, f.0));
                assert(fields[fields.len() - 1] == f);
            }
        }
    }
}

proof fn lemma_entries_diags_sound(
    es: Seq<EntryView>,
    rs: Seq<(Seq<char>, Option<Seq<char>>)>,
    q: Seq<EntryView>,
    sev: CheckSeverity,
)
    ensures
        forall|n: int|
            0 <= n < entries_diags(es, rs, q, sev).len() && (#[trigger] entries_diags(
                es,
                rs,
                q,
                sev,
            )[n]).kind == CheckDiagnosticKind::MissingTarget ==> sound_missing_target(
                es,
                rs,
                q,
                sev,
                entries_diags(es, rs, q, sev)[n],
            ),
    decreases q.len(),
{
    if q.len() > 0 {
        let r = q.drop_last();
        let e = q.last();
        lemma_entries_diags_sound(es, rs, r, sev);
        lemma_field_diags_sound(es, rs, e.id, e.metadata.structural, sev);
        let rest = entries_diags(es, rs, r, sev);
        let ed = entry_diags(es, rs, e, sev);
        let fd = field_diags(es, rs, e.id, e.metadata.structural, sev);
        let head = ed.subrange(0, ed.len() - fd.len());
        assert(ed == head + fd);
        let all = entries_diags(es, rs, q, sev);
        assert(all == rest + ed);
        assert forall|n: int|
            0 <= n < all.len() && (#[trigger] all[n]).kind
                == CheckDiagnosticKind::MissingTarget implies sound_missing_target(es, rs, q, sev, all[n]) by {
            let d = all[n];
            if n < rest.len() {
                assert(all[n] == rest[n]);
                let i = choose|i: int|
                    0 <= i < r.len() && #[trigger] r[i].id == d.entry->0 && field_lists_target(
                        r[i].metadata.structural,
                        rs,
                        d.field,
                        d.target->0,
                    );
                assert(q[i] == r[i]);
            } else {
                let m = n - rest.len();
                assert(all[n] == ed[m]);
                if m < head.len() {
                    assert(ed[m] == head[m]);
                } else {
                    assert(ed[m] == fd[m - head.len()]);
                }
                assert(q[q.len() - 1] == e);
            }
        }
    }
}

/// Every missing-target diagnostic of a check is owed: it has the boundary's severity, names
/// an entry of the set and a configured structural field of that entry, and a target listed
/// under that field that names no entry.
pub proof fn law_missing_targets_are_real(
    es: Seq<EntryView>,
    rs: Seq<(Seq<char>, Option<Seq<char>>)>,
    mode: CheckMode,
)
    ensures
        forall|n: int|
            0 <= n < check_spec(es, rs, mode).len() && (#[trigger] check_spec(es, rs, mode)[n]).kind
                == CheckDiagnosticKind::MissingTarget ==> sound_missing_target(
                es,
                rs,
                es,
                mode_severity(mode),
                check_spec(es, rs, mode)[n],
            ),
{
    let sev = mode_severity(mode);
    let ed = entries_diags(es, rs, es, sev);
    let cd = category_diags(es, rs, sev);
    lemma_entries_diags_sound(es, rs, es, sev);
    lemma_marker_diags_kind(es, category_id(rs), category_order(es), sev);
    let md = marker_diags(es, category_id(rs), category_order(es), sev);
    let all = check_spec(es, rs, mode);
    assert forall|n: int|
        0 <= n < all.len() && (#[trigger] all[n]).kind
            == CheckDiagnosticKind::MissingTarget implies sound_missing_target(es, rs, es, sev, all[n]) by {
        if n < ed.len() {
            assert(all[n] == ed[n]);
        } else {
            assert(all[n] == cd[n - ed.len()]);
            if !(category_order(es).len() == 0 && !has_relation(rs, category_field())) {
                let head = cd.subrange(0, cd.len() - md.len());
                assert(cd == head + md);
                let m = n - ed.len();
                if m >= head.len() {
                    assert(cd[m] == md[m - head.len()]);
                } else {
                    assert(cd[m] == head[m]);
                }
            }
        }
    }
}

} // verus!
