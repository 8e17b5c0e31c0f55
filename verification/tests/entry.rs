use sirno::address::EntryAddress;
use sirno::entry::{Entry, EntryMetadata, EntryParseError, FrozenMarker};
use sirno::structural::{StructuralRippleSettings, StructuralTideSettings};

fn entry_id() -> EntryAddress {
    EntryAddress::new("witness").unwrap()
}

fn field_names(metadata: &EntryMetadata) -> Vec<&str> {
    metadata.structural_fields().iter().map(|(field, _)| field.as_str()).collect()
}

#[test]
fn parses_canonical_entry_metadata() {
    let source = "\
---
name: Witness
desc: An entry whose claim is evidenced by repository artifacts.
topic:
  - concept
---

Body.
";

    let entry = Entry::from_markdown(entry_id(), source).unwrap();
    assert_eq!(entry.metadata.name, "Witness");
    assert_eq!(
        entry.metadata.structural_targets_for("topic"),
        &[EntryAddress::new("concept").unwrap()]
    );
    assert_eq!(entry.body, "Body.\n");
}

#[test]
fn parses_crlf_entry_metadata() {
    let source = "---\r\nname: Witness\r\ndesc: An entry whose claim is evidenced by repository artifacts.\r\ntopic:\r\n  - concept\r\n---\r\n\r\nBody.\r\n";

    let entry = Entry::from_markdown(entry_id(), source).unwrap();

    assert_eq!(entry.metadata.name, "Witness");
    assert_eq!(
        entry.metadata.structural_targets_for("topic"),
        &[EntryAddress::new("concept").unwrap()]
    );
    assert_eq!(entry.body, "Body.\r\n");
}

#[test]
fn rejects_scalar_structural_link_relation() {
    let source = "\
---
name: Bad
desc: Bad structural metadata.
topic: concept
---
";

    let error = Entry::from_markdown(entry_id(), source).unwrap_err();
    assert!(matches!(error, EntryParseError::FieldMustBeList(field) if field == "topic"));
}

#[test]
fn parses_extra_list_metadata_as_structural_link_relation() {
    let source = "\
---
name: Evidence
desc: Metadata with a project-defined structural link relation.
witness:
  - repository-evidence
---
";

    let entry = Entry::from_markdown(entry_id(), source).unwrap();

    assert_eq!(
        entry.metadata.structural_targets_for("witness"),
        &[EntryAddress::new("repository-evidence").unwrap()]
    );
}

#[test]
fn preserves_structural_link_relation_order_when_rendering() {
    let source = "\
---
name: Ordered
desc: Metadata with user-authored structural link relation order.
zeta:
  - concept
alpha:
  - meta
---

Body.
";

    let entry = Entry::from_markdown(entry_id(), source).unwrap();
    let fields = field_names(&entry.metadata);
    let rendered = entry.to_markdown().unwrap();

    assert_eq!(fields, ["zeta", "alpha"]);
    assert!(rendered.find("zeta:\n").unwrap() < rendered.find("alpha:\n").unwrap());
}

#[test]
fn preserves_present_empty_structural_link_relation_when_rendering() {
    let source = "\
---
name: Empty Field
desc: Metadata with a present empty structural link relation.
topic: []
---

Body.
";

    let entry = Entry::from_markdown(entry_id(), source).unwrap();
    let rendered = entry.to_markdown().unwrap();
    let reparsed = Entry::from_markdown(entry_id(), &rendered).unwrap();

    assert!(matches!(entry.metadata.structural_field("topic"), Some(targets) if targets.is_empty()));
    assert!(
        matches!(reparsed.metadata.structural_field("topic"), Some(targets) if targets.is_empty())
    );
    assert!(rendered.contains("topic: []\n"));
}

#[test]
fn renders_structural_ids_as_yaml_scalars() {
    let target = EntryAddress::new("Design Note #1").unwrap();
    let mut metadata = EntryMetadata::new("Evidence", "Metadata with a quoted target.").unwrap();
    metadata.push_structural_target("witness", target.clone());
    let entry = Entry::new(entry_id(), metadata, "Body.\n");

    let rendered = entry.to_markdown().unwrap();
    let reparsed = Entry::from_markdown(entry_id(), &rendered).unwrap();

    assert_eq!(reparsed.metadata.structural_targets_for("witness"), &[target]);
}

#[test]
fn renames_structural_targets() {
    let old_id = EntryAddress::new("old-entry").unwrap();
    let new_id = EntryAddress::new("new-entry").unwrap();
    let mut metadata = EntryMetadata::new("Concept", "A named idea.").unwrap();
    metadata.push_structural_target("belongs", old_id.clone());
    metadata.push_structural_target("belongs", EntryAddress::new("other-entry").unwrap());
    metadata.push_structural_target("refines", old_id.clone());

    assert!(metadata.rename_structural_target(&old_id, &new_id));

    assert_eq!(
        metadata.structural_targets_for("belongs"),
        &[new_id.clone(), EntryAddress::new("other-entry").unwrap()]
    );
    assert_eq!(metadata.structural_targets_for("refines"), &[new_id]);
}

#[test]
fn renames_structural_fields() {
    let old_id = EntryAddress::new("refines").unwrap();
    let new_id = EntryAddress::new("prerequisite").unwrap();
    let mut metadata = EntryMetadata::new("Concept", "A named idea.").unwrap();
    metadata.push_structural_target("category", EntryAddress::new("concept").unwrap());
    metadata.push_structural_target("refines", EntryAddress::new("broader").unwrap());
    metadata.push_structural_target("belongs", EntryAddress::new("area").unwrap());

    assert!(metadata.rename_structural_field(&old_id, &new_id));

    let fields = field_names(&metadata);
    assert_eq!(fields, ["category", "prerequisite", "belongs"]);
    assert_eq!(
        metadata.structural_targets_for("prerequisite"),
        &[EntryAddress::new("broader").unwrap()]
    );
    assert!(metadata.structural_field("refines").is_none());
}

#[test]
fn parses_canonical_frozen_marker() {
    let source = "\
---
name: Frozen
desc: A protected entry.
meta:
  frozen:
    - reviewed
---

Body.
";

    let entry = Entry::from_markdown(entry_id(), source).unwrap();

    assert_eq!(entry.metadata.meta.frozen, Some(FrozenMarker::reviewed()));
    assert!(entry.metadata.meta.frozen.as_ref().unwrap().is_reviewed());
}

#[test]
fn parses_entry_without_managed_meta() {
    let source = "\
---
name: Plain
desc: No managed metadata.
topic:
  - concept
---

Body.
";

    let entry = Entry::from_markdown(entry_id(), source).unwrap();

    assert!(entry.metadata.meta.is_empty());
    assert_eq!(
        entry.metadata.structural_targets_for("topic"),
        &[EntryAddress::new("concept").unwrap()]
    );
}

#[test]
fn rejects_top_level_frozen_marker() {
    let source = "\
---
name: Old
desc: Old frozen marker.
frozen:
  - reviewed
---
";

    let error = Entry::from_markdown(entry_id(), source).unwrap_err();

    assert!(matches!(error, EntryParseError::TopLevelFrozenMarker));
}

#[test]
fn rejects_noncanonical_frozen_value() {
    let source = "\
---
name: Bad
desc: Bad frozen marker.
meta:
  frozen: true
---
";

    let error = Entry::from_markdown(entry_id(), source).unwrap_err();

    assert!(matches!(error, EntryParseError::InvalidFrozenMarker));
}

#[test]
fn rejects_explicit_null_frozen_value() {
    let source = "\
---
name: Bad
desc: Bad frozen marker.
meta:
  frozen: null
---
";

    let error = Entry::from_markdown(entry_id(), source).unwrap_err();

    assert!(matches!(error, EntryParseError::InvalidFrozenMarker));
}

#[test]
fn parses_managed_frozen_reason() {
    let source = "\
---
name: Managed
desc: A managed entry.
meta:
  frozen:
    - reviewed
    - managed
---

Body.
";

    let entry = Entry::from_markdown(entry_id(), source).unwrap();
    let frozen = entry.metadata.meta.frozen.as_ref().unwrap();

    assert!(frozen.is_reviewed());
    assert!(frozen.is_managed());
}

#[test]
fn parses_structural_tide_settings() {
    let source = "\
---
name: Belongs
desc: A structural relation.
meta.lake.to: true
meta.lake.from: true
meta.lake.clique: true
meta.frost.from: true
---

Body.
";

    let entry = Entry::from_markdown(entry_id(), source).unwrap();
    let structural = entry.metadata.meta.tide.unwrap();

    assert_eq!(
        structural,
        StructuralTideSettings::new(
            StructuralRippleSettings::new(true, false),
            StructuralRippleSettings::new(true, true),
            StructuralRippleSettings::new(true, false),
        )
    );
}

#[test]
fn renders_empty_structural_tide_settings() {
    let mut metadata = EntryMetadata::new("Category", "A structural relation.").unwrap();
    metadata.meta.tide = Some(StructuralTideSettings::default());
    let entry = Entry::new(entry_id(), metadata, "Body.\n");

    let rendered = entry.to_markdown().unwrap();
    let reparsed = Entry::from_markdown(entry_id(), &rendered).unwrap();

    assert!(rendered.contains("meta.lake: false\nmeta.frost: false\n"));
    assert_eq!(reparsed.metadata.meta.tide, Some(StructuralTideSettings::default()));
}

#[test]
fn renders_structural_tide_settings() {
    let mut metadata = EntryMetadata::new("Belongs", "A structural relation.").unwrap();
    metadata.meta.tide = Some(StructuralTideSettings::new(
        StructuralRippleSettings::new(true, false),
        StructuralRippleSettings::new(true, true),
        StructuralRippleSettings::new(true, false),
    ));
    let entry = Entry::new(entry_id(), metadata, "Body.\n");

    let rendered = entry.to_markdown().unwrap();

    assert!(rendered.contains(
        "\
meta.lake.to: true
meta.lake.from: true
meta.lake.clique: true
meta.frost.from: true
"
    ));
}

#[test]
fn renders_canonical_frozen_marker() {
    let mut metadata = EntryMetadata::new("Frozen", "Protected entry.").unwrap();
    metadata.meta.frozen = Some(FrozenMarker::reviewed());
    let entry = Entry::new(entry_id(), metadata, "Body.\n");

    let rendered = entry.to_markdown().unwrap();

    assert!(rendered.contains("meta:\n  frozen:\n    - reviewed\n"));
    assert!(rendered.find("desc: Protected entry.\n").unwrap() < rendered.find("meta:\n").unwrap());
    assert!(!rendered.contains("frozen: null"));
    assert!(!rendered.contains("frozen: true"));
}

#[test]
fn omits_empty_managed_meta_when_rendering() {
    let metadata = EntryMetadata::new("Plain", "No managed metadata.").unwrap();
    let entry = Entry::new(entry_id(), metadata, "Body.\n");

    let rendered = entry.to_markdown().unwrap();

    assert!(!rendered.contains("meta:\n"));
}

#[test]
fn rejects_non_mapping_meta() {
    let source = "\
---
name: Bad
desc: Bad meta.
meta: true
---
";

    let error = Entry::from_markdown(entry_id(), source).unwrap_err();

    assert!(matches!(error, EntryParseError::MetaMustBeMapping));
}

#[test]
fn rejects_unknown_meta_field() {
    let source = "\
---
name: Bad
desc: Bad meta.
meta:
  owner: sirno
---
";

    let error = Entry::from_markdown(entry_id(), source).unwrap_err();

    assert!(matches!(error, EntryParseError::UnknownMetaField(field) if field == "owner"));
}

#[test]
fn rejects_old_structural_tide_block() {
    let source = "\
---
name: Bad
desc: Bad tide metadata.
meta:
  structural: {}
---
";

    let error = Entry::from_markdown(entry_id(), source).unwrap_err();

    assert!(matches!(error, EntryParseError::UnknownMetaField(field) if field == "structural"));
}

#[test]
fn rejects_non_boolean_flat_tide_field() {
    let source = "\
---
name: Bad
desc: Bad tide metadata.
meta.lake.to: \"yes\"
---
";

    let error = Entry::from_markdown(entry_id(), source).unwrap_err();

    assert!(
        matches!(error, EntryParseError::InvalidStructuralTideField(field) if field == "meta.lake.to")
    );
}

#[test]
fn replaces_body_without_rewriting_frontmatter() {
    let source = "\
---
name: Old
desc: Existing desc.
---

Old body.
";

    let replaced = Entry::replace_markdown_body(source, "New body.\n").unwrap();

    assert!(replaced.starts_with("---\nname: Old\ndesc: Existing desc.\n---\n\n"));
    assert!(replaced.ends_with("New body.\n"));
    assert!(!replaced.contains("Old body."));
}

#[test]
fn replaces_crlf_body_without_rewriting_frontmatter() {
    let source = "---\r\nname: Old\r\ndesc: Existing desc.\r\n---\r\n\r\nOld body.\r\n";

    let replaced = Entry::replace_markdown_body(source, "New body.\n").unwrap();

    assert!(replaced.starts_with("---\r\nname: Old\r\ndesc: Existing desc.\r\n---\r\n\r\n"));
    assert!(replaced.ends_with("New body.\n"));
    assert!(!replaced.contains("Old body."));
}
