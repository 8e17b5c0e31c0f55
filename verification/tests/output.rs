use sirno::config::TutorialSettings;
use sirno::query::{PathOutputFormat, QueryColumns, QueryOutputFormat, TideOutputFormat};
use sirno::report::{
    format_gen_link_report, format_witness_record, format_witness_records, OpenTideTutorial,
    WitnessRecord, WitnessSpan,
};
use sirno::table::format_query_table;
use sirno::address::EntryAddress;

fn witness_span(
    start_line: usize,
    start_column: usize,
    end_line: usize,
    end_column: usize,
) -> WitnessSpan {
    WitnessSpan { start_line, start_column, end_line, end_column }
}

fn sample_record() -> WitnessRecord {
    WitnessRecord {
        entry: EntryAddress::new("entry").unwrap(),
        path: "src/lib.rs".to_owned(),
        region: witness_span(10, 5, 14, 25),
        opening: witness_span(10, 5, 10, 33),
        closing: witness_span(14, 5, 14, 25),
        marker: "    // sample:start entry".to_owned(),
        body: "    // sample:start entry\n        fn main() {}\n    // sample:end".to_owned(),
    }
}

fn check_tutorial_knobs() {
    let no_tutorial = OpenTideTutorial::new(
        Some(TutorialSettings { frost_commit_tide: false, frost_bootstrap_tide: true }),
        true,
    )
    .to_string();
    let generic_tutorial = OpenTideTutorial::new(
        Some(TutorialSettings { frost_commit_tide: true, frost_bootstrap_tide: false }),
        true,
    )
    .to_string();

    assert!(no_tutorial.is_empty());
    assert!(generic_tutorial.contains("Tutorial:"));
    assert!(!generic_tutorial.contains("empty version 0"));
}

#[test]
fn core_open_tide_tutorial_knobs_control_message_parts() {
    check_tutorial_knobs();
}

#[test]
fn tests_open_tide_tutorial_knobs_control_message_parts() {
    check_tutorial_knobs();
}

fn check_table_defaults() {
    assert!(matches!(PathOutputFormat::default(), PathOutputFormat::Human));
    assert!(matches!(QueryOutputFormat::default(), QueryOutputFormat::Human));
    assert!(matches!(TideOutputFormat::default(), TideOutputFormat::Human));
}

#[test]
fn core_table_output_formats_default_to_human() {
    check_table_defaults();
}

#[test]
fn tests_table_output_formats_default_to_human() {
    check_table_defaults();
}

fn check_query_table_headers() {
    let columns = "id,desc".parse::<QueryColumns>().unwrap();
    let table = format_query_table(&columns, &[vec!["query".to_owned(), "Selection".to_owned()]]);

    assert_eq!(
        table,
        "\
┌───────┬───────────┐
│ id    ┆ desc      │
╞═══════╪═══════════╡
│ query ┆ Selection │
└───────┴───────────┘
"
    );
}

#[test]
fn core_query_table_uses_selected_column_headers_and_widths() {
    check_query_table_headers();
}

#[test]
fn tests_query_table_uses_selected_column_headers_and_widths() {
    check_query_table_headers();
}

fn check_query_table_unicode() {
    let columns = "id".parse::<QueryColumns>().unwrap();
    let table = format_query_table(&columns, &[vec!["界界".to_owned()], vec!["aaa".to_owned()]]);

    assert_eq!(
        table,
        "\
┌──────┐
│ id   │
╞══════╡
│ 界界 │
├╌╌╌╌╌╌┤
│ aaa  │
└──────┘
"
    );
}

#[test]
fn core_query_table_uses_unicode_display_width() {
    check_query_table_unicode();
}

#[test]
fn tests_query_table_uses_unicode_display_width() {
    check_query_table_unicode();
}

fn check_witness_record() {
    let record = sample_record();

    assert_eq!(
        format_witness_record(&record, false),
        "src/lib.rs:10:5-33 :: 14:5-25\t    // sample:start entry\n"
    );
    assert_eq!(
        format_witness_record(&record, true),
        "src/lib.rs:10:5-33 :: 14:5-25\n\n    // sample:start entry\n        fn main() {}\n    // sample:end\n\n"
    );
}

#[test]
fn core_format_witness_record_prints_range_and_preserves_body() {
    check_witness_record();
}

#[test]
fn tests_format_witness_record_prints_range_and_preserves_body() {
    check_witness_record();
}

fn check_witness_spacing() {
    let first = sample_record();
    let mut second = first.clone();
    second.region = witness_span(20, 5, 24, 25);
    second.opening = witness_span(20, 5, 20, 33);
    second.closing = witness_span(24, 5, 24, 25);

    assert!(format_witness_records(&[first, second], true)
        .contains("    // sample:end\n\n---\n\nsrc/lib.rs:20:5-33 :: 24:5-25\n"));
}

#[test]
fn core_format_witness_records_adds_full_region_spacing() {
    check_witness_spacing();
}

#[test]
fn tests_format_witness_records_adds_full_region_spacing() {
    check_witness_spacing();
}

fn check_gen_link_changed() {
    let report = format_gen_link_report(
        "sirno-docs",
        31,
        &["sirno-docs/concept.md".to_owned(), "sirno-docs/entry.md".to_owned()],
    );

    assert_eq!(
        report,
        "Changes in sirno-docs:\n- sirno-docs/concept.md\n- sirno-docs/entry.md\nTotal changes: 2/31"
    );
}

#[test]
fn core_format_gen_link_report_lists_changed_paths() {
    check_gen_link_changed();
}

#[test]
fn tests_format_gen_link_report_lists_changed_paths() {
    check_gen_link_changed();
}

fn check_gen_link_unchanged() {
    let report = format_gen_link_report("sirno-docs", 31, &[]);

    assert_eq!(report, "No changes in sirno-docs");
}

#[test]
fn core_format_gen_link_report_summarizes_no_changes() {
    check_gen_link_unchanged();
}

#[test]
fn tests_format_gen_link_report_summarizes_no_changes() {
    check_gen_link_unchanged();
}
