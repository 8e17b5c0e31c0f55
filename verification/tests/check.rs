use sirno::address::EntryAddress;
use sirno::check::{CheckDiagnosticKind, CheckMode, CheckSeverity};
use sirno::entry::{Entry, EntryMetaType, EntryMetadata};
use sirno::meta::MetaRegistry;
use sirno::structural::{StructuralSettings, StructuralTideSettings};

const FIELD_TOPIC: &str = "topic";
const FIELD_CATEGORY: &str = "category";
const NAME_FIELD: &str = "name";
const DESC_FIELD: &str = "desc";

fn entry(id: &str) -> Entry {
    Entry::new(EntryAddress::new(id).unwrap(), EntryMetadata::new(id, "desc").unwrap(), "")
}

fn relation_entry(id: &str) -> Entry {
    let mut entry = entry(id);
    entry.metadata.meta.entry_type = Some(EntryMetaType::Relation);
    entry.metadata.meta.tide = Some(StructuralTideSettings::default());
    entry
}

fn intrinsic_entry(id: &str) -> Entry {
    let mut entry = entry(id);
    entry.metadata.meta.entry_type = Some(EntryMetaType::Intrinsic);
    entry
}

fn settings_with(field: &str) -> StructuralSettings {
    StructuralSettings::from_relations(vec![(field.to_owned(), None)])
}

fn structural_settings() -> StructuralSettings {
    settings_with(FIELD_TOPIC)
}

fn category_settings() -> StructuralSettings {
    settings_with(FIELD_CATEGORY)
}

fn meta_registry(structural: StructuralSettings) -> MetaRegistry {
    MetaRegistry::from_parts(
        vec![
            (NAME_FIELD.to_owned(), EntryAddress::new(NAME_FIELD).unwrap()),
            (DESC_FIELD.to_owned(), EntryAddress::new(DESC_FIELD).unwrap()),
        ],
        structural,
    )
}

#[test]
fn clean_entries_produce_clean_report() {
    let mut concept = entry("concept");
    concept.metadata.push_structural_target(FIELD_TOPIC, EntryAddress::new("meta").unwrap());
    let mut meta = entry("meta");
    meta.metadata.push_structural_target(FIELD_TOPIC, EntryAddress::new("meta").unwrap());
    let topic = relation_entry(FIELD_TOPIC);

    let report =
        CheckMode::Review.check_entries(&[&concept, &meta, &topic], &meta_registry(structural_settings()));
    assert!(report.is_clean());
}

#[test]
fn structural_type_without_tide_policy_is_clean() {
    let mut topic = entry(FIELD_TOPIC);
    topic.metadata.meta.entry_type = Some(EntryMetaType::Relation);

    let report = CheckMode::Review.check_entries(&[&topic], &meta_registry(structural_settings()));

    assert!(report.is_clean());
}

#[test]
fn edit_mode_reports_dangling_reference_as_warning() {
    let mut concept = entry("concept");
    concept.metadata.push_structural_target(FIELD_TOPIC, EntryAddress::new("meta").unwrap());
    let topic = relation_entry(FIELD_TOPIC);

    let report =
        CheckMode::Edit.check_entries(&[&concept, &topic], &meta_registry(structural_settings()));
    assert_eq!(report.diagnostics()[0].kind, CheckDiagnosticKind::MissingTarget);
    assert_eq!(report.diagnostics()[0].severity, CheckSeverity::Warning);
    assert!(!report.has_errors());
}

#[test]
fn review_mode_reports_dangling_reference_as_error() {
    let mut concept = entry("concept");
    concept.metadata.push_structural_target(FIELD_TOPIC, EntryAddress::new("meta").unwrap());
    let topic = relation_entry(FIELD_TOPIC);

    let report =
        CheckMode::Review.check_entries(&[&concept, &topic], &meta_registry(structural_settings()));
    assert_eq!(report.diagnostics()[0].kind, CheckDiagnosticKind::MissingTarget);
    assert_eq!(report.diagnostics()[0].severity, CheckSeverity::Error);
    assert!(report.has_errors());
}

#[test]
fn uninhabited_structural_fields_warn() {
    let mut concept = entry("concept");
    concept.metadata.push_structural_target(FIELD_TOPIC, EntryAddress::new("meta").unwrap());

    let report = CheckMode::Review.check_entries(&[&concept], &meta_registry(StructuralSettings::new()));

    assert_eq!(report.diagnostics()[0].kind, CheckDiagnosticKind::UninhabitedStructuralField);
    assert_eq!(report.diagnostics()[0].severity, CheckSeverity::Warning);
    assert!(!report.has_errors());
}

#[test]
fn review_mode_reports_invalid_structural_relation_field_as_error() {
    let topic = relation_entry("meta");

    let report = CheckMode::Review.check_entries(&[&topic], &meta_registry(StructuralSettings::new()));

    assert_eq!(report.diagnostics()[0].kind, CheckDiagnosticKind::InvalidStructuralRelationField);
    assert_eq!(report.diagnostics()[0].severity, CheckSeverity::Error);
    assert!(report.has_errors());
}

#[test]
fn intrinsic_meta_fields_are_semantically_checked() {
    let name = intrinsic_entry(NAME_FIELD);
    let desc = intrinsic_entry(DESC_FIELD);

    let report =
        CheckMode::Review.check_entries(&[&name, &desc], &meta_registry(StructuralSettings::new()));

    assert!(report.is_clean());
}

#[test]
fn review_mode_reports_invalid_intrinsic_field_as_error() {
    let meta = intrinsic_entry("meta");

    let report = CheckMode::Review.check_entries(&[&meta], &meta_registry(StructuralSettings::new()));

    assert_eq!(report.diagnostics()[0].kind, CheckDiagnosticKind::InvalidIntrinsicField);
    assert_eq!(report.diagnostics()[0].severity, CheckSeverity::Error);
    assert!(report.has_errors());
}

#[test]
fn category_metadata_warns_when_category_entry_is_missing() {
    let mut concept = entry("concept");
    concept.metadata.push_structural_target(FIELD_CATEGORY, EntryAddress::new("meta").unwrap());
    let mut meta = entry("meta");
    meta.metadata.push_structural_target(FIELD_CATEGORY, EntryAddress::new("category").unwrap());

    let report =
        CheckMode::Review.check_entries(&[&concept, &meta], &meta_registry(category_settings()));

    assert!(report.diagnostics().iter().any(|diagnostic| diagnostic.kind
        == CheckDiagnosticKind::MissingCategoryEntry
        && diagnostic.severity == CheckSeverity::Warning));
}

#[test]
fn review_mode_reports_category_target_without_category_marker_as_error() {
    let mut concept = entry("concept");
    concept.metadata.push_structural_target(FIELD_CATEGORY, EntryAddress::new("meta").unwrap());
    let meta = entry("meta");
    let mut category = relation_entry("category");
    category.metadata.push_structural_target(FIELD_CATEGORY, EntryAddress::new("category").unwrap());

    let report = CheckMode::Review
        .check_entries(&[&concept, &meta, &category], &meta_registry(category_settings()));

    let diagnostic = report
        .diagnostics()
        .iter()
        .find(|diagnostic| diagnostic.kind == CheckDiagnosticKind::CategoryTargetMissingCategoryMarker)
        .expect("category target marker diagnostic");
    assert_eq!(diagnostic.entry.as_ref().unwrap().as_str(), "meta");
    assert_eq!(diagnostic.severity, CheckSeverity::Error);
    assert!(report.has_errors());
}

#[test]
fn edit_mode_reports_category_target_without_category_marker_as_warning() {
    let mut concept = entry("concept");
    concept.metadata.push_structural_target(FIELD_CATEGORY, EntryAddress::new("meta").unwrap());
    let meta = entry("meta");
    let mut category = relation_entry("category");
    category.metadata.push_structural_target(FIELD_CATEGORY, EntryAddress::new("category").unwrap());

    let report = CheckMode::Edit
        .check_entries(&[&concept, &meta, &category], &meta_registry(category_settings()));

    let diagnostic = report
        .diagnostics()
        .iter()
        .find(|diagnostic| diagnostic.kind == CheckDiagnosticKind::CategoryTargetMissingCategoryMarker)
        .expect("category target marker diagnostic");
    assert_eq!(diagnostic.severity, CheckSeverity::Warning);
    assert!(!report.has_errors());
}

#[test]
fn diagnostic_texts_name_the_entry_and_target() {
    let mut concept = entry("concept");
    concept.metadata.push_structural_target(FIELD_TOPIC, EntryAddress::new("missing").unwrap());
    let topic = relation_entry(FIELD_TOPIC);

    let report =
        CheckMode::Review.check_entries(&[&concept, &topic], &meta_registry(structural_settings()));
    let diagnostic = &report.diagnostics()[0];

    assert_eq!(diagnostic.code(), "check.structural.target.missing");
    assert_eq!(diagnostic.message(), "`concept` references missing entry `missing` through `topic`");
    assert_eq!(diagnostic.help().unwrap(), "Create entry `missing` or remove it from `topic`.");
    assert_eq!(diagnostic.severity.label(), "error");
}

#[test]
fn edit_and_review_modes_find_the_same_problems() {
    let mut concept = entry("concept");
    concept.metadata.push_structural_target(FIELD_TOPIC, EntryAddress::new("gone").unwrap());
    concept.metadata.push_structural_target("undefined", EntryAddress::new("meta").unwrap());
    let meta = intrinsic_entry("meta");
    let registry = meta_registry(structural_settings());

    let edit = CheckMode::Edit.check_entries(&[&concept, &meta], &registry);
    let review = CheckMode::Review.check_entries(&[&concept, &meta], &registry);

    assert_eq!(edit.diagnostics().len(), review.diagnostics().len());
    for (a, b) in edit.diagnostics().iter().zip(review.diagnostics()) {
        assert_eq!(a.kind, b.kind);
        assert_eq!(a.field, b.field);
        assert_eq!(a.severity, CheckSeverity::Warning);
    }
    assert!(!edit.has_errors());
    assert!(review.has_errors());
}

#[test]
fn category_targets_are_reported_in_address_order() {
    let mut concept = entry("concept");
    concept.metadata.push_structural_target(FIELD_CATEGORY, EntryAddress::new("zeta").unwrap());
    concept.metadata.push_structural_target(FIELD_CATEGORY, EntryAddress::new("alpha").unwrap());
    let zeta = entry("zeta");
    let alpha = entry("alpha");
    let category = relation_entry("category");

    let report = CheckMode::Review
        .check_entries(&[&concept, &zeta, &alpha, &category], &meta_registry(category_settings()));
    let marked: Vec<&str> = report
        .diagnostics()
        .iter()
        .filter(|d| d.kind == CheckDiagnosticKind::CategoryTargetMissingCategoryMarker)
        .map(|d| d.entry.as_ref().unwrap().as_str())
        .collect();

    assert_eq!(marked, ["alpha", "zeta"]);
}

use sirno::context::CoreContext;
use sirno::output::format_lake_check_result;

#[test]
fn lake_check_lists_diagnostics_with_entry_files() {
    let mut concept = entry("concept");
    concept.metadata.push_structural_target(FIELD_TOPIC, EntryAddress::new("meta").unwrap());
    let topic = relation_entry(FIELD_TOPIC);
    let files = vec![("docs/concept.md".to_owned(), concept), ("docs/topic.md".to_owned(), topic)];
    let context = CoreContext::new("Sirno.toml");

    let review = context.lake_check("docs", &files, &MetaRegistry::standard(structural_settings()), CheckMode::Review);
    assert!(!review.ok);
    assert!(review.has_errors);
    assert_eq!(review.diagnostics.len(), 1);
    assert_eq!(review.diagnostics[0].severity, "error");
    assert_eq!(review.diagnostics[0].path.as_deref(), Some("docs/concept.md"));
    assert_eq!(
        format_lake_check_result(&review),
        "error: docs/concept.md: `concept` references missing entry `meta` through `topic`\ncheck: failed in docs\n"
    );

    let edit = context.lake_check("docs", &files, &MetaRegistry::standard(structural_settings()), CheckMode::Edit);
    assert!(edit.ok);
    assert_eq!(edit.diagnostics[0].severity, "warning");
}
