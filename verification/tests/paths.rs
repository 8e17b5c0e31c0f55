use sirno::artifact::{EntryArtifactPath, EntryArtifactPathError};
use sirno::table::format_human_table_with_width;

#[test]
fn artifact_path_normalizes_relative_paths() {
    let path = EntryArtifactPath::new("images/logo.png").unwrap();

    assert_eq!(path.as_str(), "images/logo.png");
    assert_eq!(path.components(), vec!["images".to_owned(), "logo.png".to_owned()]);
}

#[test]
fn artifact_path_rejects_non_relative_components() {
    assert!(matches!(
        EntryArtifactPath::new("../logo.png").unwrap_err(),
        EntryArtifactPathError::NonRelative(_)
    ));
    assert!(matches!(
        EntryArtifactPath::new("./logo.png").unwrap_err(),
        EntryArtifactPathError::NonRelative(_)
    ));
}

#[test]
fn artifact_path_drops_empty_and_current_components() {
    let path = EntryArtifactPath::new("images//./logo.png/").unwrap();

    assert_eq!(path.as_str(), "images/logo.png");
    assert_eq!(EntryArtifactPath::new(path.as_str()).unwrap().as_str(), path.as_str());
    assert!(matches!(EntryArtifactPath::new("").unwrap_err(), EntryArtifactPathError::Empty));
    assert!(matches!(
        EntryArtifactPath::new("/logo.png").unwrap_err(),
        EntryArtifactPathError::Absolute(_)
    ));
    assert!(matches!(
        EntryArtifactPath::new("a/../b").unwrap_err(),
        EntryArtifactPathError::NonRelative(_)
    ));
    assert_eq!(
        EntryArtifactPath::new("../logo.png").unwrap_err().message(),
        "artifact path must contain only normal relative components: ../logo.png"
    );
}

#[test]
fn tests_human_table_wraps_to_explicit_width() {
    let table = format_human_table_with_width(
        vec!["id".to_owned(), "desc".to_owned()],
        vec![vec!["query".to_owned(), "one two three".to_owned()]],
        Some(18),
    );

    assert_eq!(
        table,
        "\
┌───────┬────────┐
│ id    ┆ desc   │
╞═══════╪════════╡
│ query ┆ one    │
│       ┆ two    │
│       ┆ three  │
└───────┴────────┘
"
    );
}

#[test]
fn tests_human_table_elides_columns_when_width_is_too_small() {
    let table = format_human_table_with_width(
        vec!["id".to_owned(), "name".to_owned(), "path".to_owned(), "desc".to_owned()],
        vec![vec![
            "a".to_owned(),
            "Beta".to_owned(),
            "sirno-docs/a.md".to_owned(),
            "A compact entry.".to_owned(),
        ]],
        Some(19),
    );

    assert_eq!(
        table,
        "\
┌────┬──────┬─────┐
│ id ┆ name ┆ ... │
╞════╪══════╪═════╡
│ a  ┆ Beta ┆ ... │
└────┴──────┴─────┘
"
    );
}

#[test]
fn core_human_table_wraps_to_explicit_width() {
    let table = format_human_table_with_width(
        vec!["id".to_owned(), "desc".to_owned()],
        vec![vec!["query".to_owned(), "one two three".to_owned()]],
        Some(18),
    );

    assert_eq!(
        table,
        "\
┌───────┬────────┐
│ id    ┆ desc   │
╞═══════╪════════╡
│ query ┆ one    │
│       ┆ two    │
│       ┆ three  │
└───────┴────────┘
"
    );
}

#[test]
fn core_human_table_elides_columns_when_width_is_too_small() {
    let table = format_human_table_with_width(
        vec!["id".to_owned(), "name".to_owned(), "path".to_owned(), "desc".to_owned()],
        vec![vec![
            "a".to_owned(),
            "Beta".to_owned(),
            "sirno-docs/a.md".to_owned(),
            "A compact entry.".to_owned(),
        ]],
        Some(19),
    );

    assert_eq!(
        table,
        "\
┌────┬──────┬─────┐
│ id ┆ name ┆ ... │
╞════╪══════╪═════╡
│ a  ┆ Beta ┆ ... │
└────┴──────┴─────┘
"
    );
}
