use sirno::address::EntryAddress;
use sirno::structural::StructuralEdgeDirection;
use sirno::tide::{
    format_tide_review_entries, format_tide_review_waves, format_tide_statuses,
    format_tide_statuses_by_entry, TideSource, TideStatus, TideWorkitem,
};

fn tide_status_fixture(
    ripple: &str,
    field: &str,
    direction: StructuralEdgeDirection,
    neighbor: &str,
    sources: &[TideSource],
    resolved: bool,
) -> TideStatus {
    TideStatus {
        workitem: TideWorkitem::new(
            EntryAddress::new(ripple).unwrap(),
            field,
            direction,
            EntryAddress::new(neighbor).unwrap(),
        )
        .unwrap(),
        sources: sources.iter().copied().collect(),
        fingerprint: format!("{ripple}-{neighbor}"),
        resolved,
    }
}

fn heavy_wave_separator_count(output: &str) -> usize {
    let mut header_separator_seen = false;
    output
        .lines()
        .filter(|line| {
            if !line.starts_with('╞') {
                return false;
            }
            if header_separator_seen {
                true
            } else {
                header_separator_seen = true;
                false
            }
        })
        .count()
}

fn assert_before(source: &str, before: &str, after: &str) {
    assert!(source.find(before).unwrap() < source.find(after).unwrap());
}

#[test]
fn tide_review_waves_merge_into_one_table() {
    let statuses = vec![
        tide_status_fixture(
            "interfaces",
            "belongs",
            StructuralEdgeDirection::Clique,
            "agent-skills",
            &[TideSource::Lake],
            false,
        ),
        tide_status_fixture(
            "interfaces",
            "belongs",
            StructuralEdgeDirection::Clique,
            "form",
            &[TideSource::Lake],
            false,
        ),
        tide_status_fixture(
            "tide",
            "refines",
            StructuralEdgeDirection::From,
            "wave",
            &[TideSource::Lake, TideSource::Frost],
            false,
        ),
    ];

    let output = format_tide_review_waves(&statuses);

    assert!(
        output.contains("The tide has 3 open workitems in 2 waves, with 3 unique review entries.")
    );
    assert!(!output.contains("review entries:"));
    assert_eq!(output.matches('┌').count(), 1);
    assert_eq!(heavy_wave_separator_count(&output), 1);
    assert!(output.contains("│ wave       ┆ entry"));
    assert!(output.contains("│ interfaces ┆ agent-skills │"));
    assert!(output.contains("│            ┆ form"));
    assert!(output.contains("│ tide       ┆ wave"));
    assert_before(&output, "│ tide       ┆ wave", "The tide has 3 open workitems");
}

#[test]
fn tide_review_entries_group_by_review_entry() {
    let statuses = vec![
        tide_status_fixture(
            "interfaces",
            "belongs",
            StructuralEdgeDirection::Clique,
            "agent-skills",
            &[TideSource::Lake],
            false,
        ),
        tide_status_fixture(
            "tide",
            "refines",
            StructuralEdgeDirection::From,
            "agent-skills",
            &[TideSource::Frost],
            false,
        ),
        tide_status_fixture(
            "tide",
            "belongs",
            StructuralEdgeDirection::To,
            "form",
            &[TideSource::Lake],
            false,
        ),
    ];

    let output = format_tide_review_entries(&statuses);

    assert!(
        output.contains("The tide has 3 open workitems in 2 waves, with 2 unique review entries.")
    );
    assert_eq!(output.matches('┌').count(), 1);
    assert_eq!(heavy_wave_separator_count(&output), 1);
    assert!(output.contains("│ entry        ┆ reason"));
    assert!(output.contains("│ agent-skills ┆ interfaces"));
    assert!(output.contains("│              ┆ tide"));
    assert!(output.contains("│ form         ┆ tide"));
    assert_before(&output, "│ form         ┆ tide", "The tide has 3 open workitems");
}

#[test]
fn tide_full_statuses_group_by_wave() {
    let statuses = vec![
        tide_status_fixture(
            "interfaces",
            "belongs",
            StructuralEdgeDirection::Clique,
            "agent-skills",
            &[TideSource::Lake],
            false,
        ),
        tide_status_fixture(
            "tide",
            "refines",
            StructuralEdgeDirection::From,
            "wave",
            &[TideSource::Lake, TideSource::Frost],
            false,
        ),
        tide_status_fixture(
            "tide",
            "belongs",
            StructuralEdgeDirection::To,
            "frost-versioning",
            &[TideSource::Lake],
            true,
        ),
    ];

    let output = format_tide_statuses(&statuses);

    assert!(output.contains(
        "The tide has 2 open workitems and 1 resolved workitem in 2 waves, \
         with 2 unique review entries."
    ));
    assert!(!output.contains("review entries:"));
    assert_eq!(output.matches('┌').count(), 1);
    assert_eq!(heavy_wave_separator_count(&output), 1);
    assert!(output.contains("│ wave       ┆ entry"));
    assert!(output.contains("┆ state"));
    assert!(output.contains("│ interfaces ┆ agent-skills"));
    assert!(output.contains("│ tide       ┆ wave"));
    assert!(output.contains("│            ┆ frost-versioning"));
    assert!(output.contains("lake,frost"));
    assert!(output.contains("resolved"));
    assert_before(&output, "│            ┆ frost-versioning", "The tide has 2 open workitems");
}

#[test]
fn tide_full_statuses_group_by_review_entry() {
    let statuses = vec![
        tide_status_fixture(
            "interfaces",
            "belongs",
            StructuralEdgeDirection::Clique,
            "agent-skills",
            &[TideSource::Lake],
            false,
        ),
        tide_status_fixture(
            "tide",
            "refines",
            StructuralEdgeDirection::From,
            "agent-skills",
            &[TideSource::Lake, TideSource::Frost],
            false,
        ),
        tide_status_fixture(
            "tide",
            "belongs",
            StructuralEdgeDirection::To,
            "frost-versioning",
            &[TideSource::Lake],
            true,
        ),
    ];

    let output = format_tide_statuses_by_entry(&statuses);

    assert!(output.contains(
        "The tide has 2 open workitems and 1 resolved workitem in 2 waves, \
         with 1 unique review entry."
    ));
    assert_eq!(output.matches('┌').count(), 1);
    assert_eq!(heavy_wave_separator_count(&output), 1);
    assert!(output.contains("│ entry"));
    assert!(output.contains("┆ reason"));
    assert!(output.contains("│ agent-skills"));
    assert!(output.contains("┆ interfaces"));
    assert!(output.contains("┆ tide"));
    assert!(output.contains("│ frost-versioning"));
    assert!(output.contains("lake,frost"));
    assert!(output.contains("resolved"));
    assert_before(&output, "│ frost-versioning", "The tide has 2 open workitems");
}
