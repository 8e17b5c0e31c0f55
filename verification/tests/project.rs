use sirno::address::EntryAddress;
use sirno::context::{query_result_records, query_result_rows, QueryResults};
use sirno::entry::{Entry, EntryMetadata, FrozenMarker, FrozenReason};
use sirno::output::DiagnosticRecord;
use sirno::project::{format_status_result, structural_matchers_by_field, StatusResult, StructuralFieldStatus, StructuralMatcher};
use sirno::query::{QueryColumn, QueryColumns, StructuralFieldState, StructuralFilter, StructuralStateFilter};
use sirno::structural::StructuralSettings;
use sirno::config::TutorialSettings;
use sirno::context::{CommandError, CoreContext};
use sirno::output::LakeCheckResult;
use sirno::path::{paths_equal, sort_unique_paths};
use sirno::project::{
    checkout_leaves_writable, checkout_state_label, default_repo_path, frost_checkout_target, frost_init_plan,
    frost_state_label, reject_immutable_checkout, tide_selection_from_items,
    tide_selection_matches, tide_statuses_for_output, CheckoutTarget, FrostCheckoutRequest,
    FrostLockState, FrostLockStatus, ProjectPaths, TideItemSelector, TideResolveRequest,
    TideStatusMode,
};
use sirno::structural::StructuralEdgeDirection;
use sirno::tide::{TideSource, TideStatus, TideWorkitem};

fn address(raw: &str) -> EntryAddress {
    EntryAddress::new(raw).unwrap()
}

fn workitem(ripple: &str, neighbor: &str) -> TideWorkitem {
    TideWorkitem::new(address(ripple), "belongs", StructuralEdgeDirection::To, address(neighbor))
        .unwrap()
}

fn status(ripple: &str, neighbor: &str, resolved: bool) -> TideStatus {
    TideStatus {
        workitem: workitem(ripple, neighbor),
        sources: vec![TideSource::Lake],
        fingerprint: format!("{ripple}-{neighbor}"),
        resolved,
    }
}

fn strings(values: &[&str]) -> Vec<String> {
    values.iter().map(|value| (*value).to_owned()).collect()
}

#[test]
fn rename_reports_paths_in_component_order_once() {
    let context = CoreContext::new("Sirno.toml");
    let changed = strings(&["src/a.rs", "src/a/b.rs", "docs/x.md", "docs//x.md", "src/a.rs"]);
    let result = context.entry_rename(&address("old-name"), &address("new-name"), &changed);

    assert!(result.ok);
    assert_eq!(result.old_id, "old-name");
    assert_eq!(result.new_id, "new-name");
    assert_eq!(result.updated_paths, strings(&["docs/x.md", "src/a/b.rs", "src/a.rs"]));
    assert_eq!(result.message, "renamed entry old-name to new-name");
}

#[test]
fn path_order_puts_root_and_current_directory_first() {
    let sorted = sort_unique_paths(&strings(&["b", "./b", "/b", "../b", "a/./b", "a/b/"]));

    assert_eq!(sorted, strings(&["/b", "./b", "../b", "a/./b", "b"]));
    assert!(paths_equal("a/./b", "a/b/"));
    assert!(!paths_equal("./a", "a"));
    assert!(paths_equal("/x//y", "/x/y"));
}

#[test]
fn frost_state_labels_name_the_lock() {
    assert_eq!(frost_state_label(None), "(unlocked)");
    let current =
        FrostLockState { status: FrostLockStatus::Current, version: 3, generation: 7, mutable: true };
    assert_eq!(frost_state_label(Some(&current)), "current version 3 (generation 7, mutable)");
    let mutable = FrostLockState {
        status: FrostLockStatus::CheckedOut,
        version: 2,
        generation: 4,
        mutable: true,
    };
    assert_eq!(
        frost_state_label(Some(&mutable)),
        "checked-out version 2 (generation 4, unsafe mutable)"
    );
    let immutable = FrostLockState { mutable: false, ..mutable };
    assert_eq!(
        frost_state_label(Some(&immutable)),
        "checked-out version 2 (generation 4, immutable)"
    );

    assert!(reject_immutable_checkout(None).is_ok());
    assert!(reject_immutable_checkout(Some(&current)).is_ok());
    assert!(reject_immutable_checkout(Some(&mutable)).is_ok());
    assert!(matches!(
        reject_immutable_checkout(Some(&immutable)),
        Err(CommandError::ImmutableFrostCheckout(2))
    ));
}

#[test]
fn checkout_targets_need_latest_or_a_real_version() {
    let latest = FrostCheckoutRequest::latest();
    assert!(matches!(frost_checkout_target(&latest), Ok(CheckoutTarget::Latest)));
    let missing = FrostCheckoutRequest { version: None, latest: false, unsafe_mutable: false };
    assert!(matches!(
        frost_checkout_target(&missing),
        Err(CommandError::MissingFrostCheckoutTarget)
    ));
    let empty = FrostCheckoutRequest { version: Some(0), latest: false, unsafe_mutable: false };
    assert!(matches!(frost_checkout_target(&empty), Err(CommandError::InvalidFrostVersion(0))));
    let two = FrostCheckoutRequest { version: Some(2), latest: false, unsafe_mutable: true };
    assert!(matches!(frost_checkout_target(&two), Ok(CheckoutTarget::Version(2))));

    assert_eq!(checkout_state_label(&latest), "mutable");
    assert_eq!(checkout_state_label(&two), "unsafe mutable");
    assert_eq!(checkout_state_label(&FrostCheckoutRequest { unsafe_mutable: false, ..two }), "immutable");
    assert!(checkout_leaves_writable(&latest));
    assert!(checkout_leaves_writable(&two));
    assert!(!checkout_leaves_writable(&FrostCheckoutRequest { unsafe_mutable: false, ..two }));
}

#[test]
fn checkout_results_describe_the_lake() {
    let context = CoreContext::new("Sirno.toml");
    let latest = context.frost_defrost(3, 7, "docs", 2).unwrap();
    assert_eq!(latest.result.message, "checked out latest frost version 3 into docs (2 entries, mutable)");
    assert_eq!(latest.result.state, "mutable");
    assert_eq!(latest.lock.status, FrostLockStatus::Current);
    assert_eq!(latest.lock.version, 3);
    assert_eq!(latest.lock.generation, 7);
    assert!(latest.writable);

    let request = FrostCheckoutRequest { version: Some(2), latest: false, unsafe_mutable: false };
    let older = context.frost_checkout(&request, 2, 4, "docs", 5).unwrap();
    assert_eq!(older.result.message, "checked out frost version 2 into docs (5 entries, immutable)");
    assert_eq!(older.result.version, 2);
    assert_eq!(older.result.entry_count, 5);
    assert_eq!(older.lock.status, FrostLockStatus::CheckedOut);
    assert!(!older.lock.mutable);
    assert!(!older.writable);

    let unsafe_request = FrostCheckoutRequest { unsafe_mutable: true, ..request };
    let open = context.frost_checkout(&unsafe_request, 2, 4, "docs", 5).unwrap();
    assert!(open.lock.mutable);
    assert!(open.writable);

    assert!(matches!(
        context.frost_defrost(0, 0, "docs", 0),
        Err(CommandError::InvalidFrostVersion(0))
    ));
}

#[test]
fn checkout_refuses_a_request_without_a_real_version() {
    let context = CoreContext::new("Sirno.toml");
    let missing = FrostCheckoutRequest { version: None, latest: false, unsafe_mutable: false };
    assert!(matches!(
        context.frost_checkout(&missing, 4, 1, "docs", 1),
        Err(CommandError::MissingFrostCheckoutTarget)
    ));
    let empty = FrostCheckoutRequest { version: Some(0), latest: false, unsafe_mutable: false };
    assert!(matches!(
        context.frost_checkout(&empty, 4, 1, "docs", 1),
        Err(CommandError::InvalidFrostVersion(0))
    ));
}

#[test]
fn commit_needs_a_clear_tide() {
    let context = CoreContext::new("Sirno.toml");
    assert!(context.frost_commit_allowed(None, false, true, 0, None, 0).is_ok());
    assert!(context.frost_commit_allowed(None, true, false, 4, None, 0).is_ok());
    match context.frost_commit_allowed(None, false, false, 4, Some(TutorialSettings::all()), 0) {
        Err(CommandError::OpenTide { count, tutorial }) => {
            assert_eq!(count, 4);
            assert!(tutorial.to_string().contains("empty version 0"));
        }
        other => panic!("unexpected {other:?}"),
    }
    match context.frost_commit(None, false, false, 1, None, 5, 6, 2, "docs") {
        Err(CommandError::OpenTide { count, tutorial }) => {
            assert_eq!(count, 1);
            assert_eq!(tutorial.to_string(), "");
            let error = CommandError::OpenTide { count, tutorial };
            assert_eq!(error.message(), "tide has 1 open workitems; run `sirno tide status`");
        }
        other => panic!("unexpected {other:?}"),
    }
    let immutable = FrostLockState { status: FrostLockStatus::CheckedOut, version: 3, generation: 1, mutable: false };
    assert!(matches!(
        context.frost_commit(Some(&immutable), true, true, 0, None, 3, 6, 2, "docs"),
        Err(CommandError::ImmutableFrostCheckout(3))
    ));

    let commit = context.frost_commit(None, false, true, 0, None, 5, 6, 2, "docs").unwrap();
    assert_eq!(commit.result.message, "froze version 6 from docs");
    assert_eq!(commit.result.version, 6);
    assert_eq!(commit.lock.status, FrostLockStatus::Current);
    assert_eq!(commit.lock.version, 6);
}

#[test]
fn frost_init_keeps_a_configured_path() {
    let plan = frost_init_plan(None, None, "project-frost").unwrap();
    assert_eq!(plan.frost_path, "project-frost");
    assert!(plan.write_config);

    let same = frost_init_plan(Some("frost//store"), Some("frost/store"), "project-frost").unwrap();
    assert_eq!(same.frost_path, "frost//store");
    assert!(!same.write_config);

    let kept = frost_init_plan(None, Some("frost/store"), "project-frost").unwrap();
    assert_eq!(kept.frost_path, "frost/store");

    match frost_init_plan(Some("elsewhere"), Some("frost/store"), "project-frost") {
        Err(CommandError::FrostAlreadyConfigured(path)) => assert_eq!(path, "frost/store"),
        other => panic!("unexpected {other:?}"),
    }

    let context = CoreContext::new("Sirno.toml");
    let init = context.frost_init("frost/store", 0, 0);
    assert_eq!(init.result.message, "initialized frost frost/store at version 0");
    assert_eq!(init.lock.status, FrostLockStatus::Current);
    assert_eq!(init.lock.version, 0);
}

#[test]
fn default_store_paths_are_named_after_the_repository() {
    assert_eq!(default_repo_path("/work/repo/Sirno.toml", None, "frost"), "repo-frost");
    assert_eq!(default_repo_path("Sirno.toml", Some("/home/me/project"), "lake"), "project-lake");
    assert_eq!(default_repo_path("./Sirno.toml", Some("/home/me/project"), "frost"), "project-frost");
    assert_eq!(default_repo_path("Sirno.toml", None, "lake"), "sirno-lake");
    assert_eq!(default_repo_path("Sirno.toml", Some("/"), "lake"), "sirno-lake");
}

#[test]
fn frost_move_needs_a_configured_path() {
    let context = CoreContext::new("Sirno.toml");
    assert!(matches!(context.frost_move(None, "new", Ok(false)), Err(CommandError::FrostNotConfigured)));
    let moved = context.frost_move(Some("old"), "new", Ok(true)).unwrap();
    assert!(moved.moved);
    assert_eq!(moved.message, "moved frost old to new");
}

#[test]
fn witness_lookup_checks_entry_then_members() {
    let context = CoreContext::new("Sirno.toml");
    let id = address("alpha");
    match context.witness_lookup(&id, false, false) {
        Err(CommandError::MissingWitnessEntry(missing)) => assert_eq!(missing.as_str(), "alpha"),
        other => panic!("unexpected {other:?}"),
    }
    assert!(matches!(
        context.witness_lookup(&id, true, false),
        Err(CommandError::RepoMembersNotConfigured)
    ));
    assert!(context.witness_lookup(&id, true, true).is_ok());
}

#[test]
fn status_reports_follow_the_mode() {
    let context = CoreContext::new("Sirno.toml");
    let statuses = vec![status("alpha", "beta", false), status("alpha", "gamma", true)];

    assert_eq!(tide_statuses_for_output(&statuses, false).len(), 1);
    assert_eq!(tide_statuses_for_output(&statuses, true).len(), 2);
    let listed = tide_statuses_for_output(&statuses, true);
    assert_eq!(listed[0].fingerprint, "alpha-beta");
    assert_eq!(listed[1].fingerprint, "alpha-gamma");
    assert_eq!(context.tide_statuses(TideStatusMode::Full, &statuses).len(), 1);
    assert_eq!(context.tide_statuses(TideStatusMode::All, &statuses).len(), 2);

    let review = context.tide_review_entries(&statuses);
    assert_eq!(review.len(), 1);
    assert_eq!(review[0].as_str(), "beta");

    let result = context.tide_status(TideStatusMode::Review, review, &statuses);
    assert!(!result.ok);
    assert!(result.statuses.is_empty());
    let full = context.tide_status(TideStatusMode::Full, Vec::new(), &statuses);
    assert!(full.ok);
    assert_eq!(full.statuses[0].fingerprint, "alpha-beta");
    assert_eq!(full.statuses.len(), 1);
    assert_eq!(full.statuses[0].workitem.neighbor.as_str(), "beta");
}

#[test]
fn selections_match_by_neighbor_or_workitem() {
    let open = status("alpha", "beta", false);
    let other = status("alpha", "gamma", false);
    let request = TideResolveRequest {
        infer: false,
        neighbors: vec![address("beta")],
        workitems: Vec::new(),
    };
    assert!(tide_selection_matches(&request, &open));
    assert!(!tide_selection_matches(&request, &other));

    let exact = TideResolveRequest {
        infer: false,
        neighbors: Vec::new(),
        workitems: vec![workitem("alpha", "gamma")],
    };
    assert!(tide_selection_matches(&exact, &other));
    assert!(!tide_selection_matches(&exact, &open));

    let selection = tide_selection_from_items(vec![
        TideItemSelector::Neighbor(address("beta")),
        TideItemSelector::Workitem(workitem("alpha", "gamma")),
        TideItemSelector::Neighbor(address("delta")),
    ]);
    assert_eq!(selection.neighbors.len(), 2);
    assert_eq!(selection.neighbors[1].as_str(), "delta");
    assert_eq!(selection.workitems.len(), 1);
}

#[test]
fn tide_changes_count_workitems() {
    let context = CoreContext::new("Sirno.toml");
    assert_eq!(context.tide_resolve(3).message, "resolved 3 tide workitems");
    assert_eq!(context.tide_unresolve(1).message, "unresolved 1 tide workitems");
    let mut resolutions = vec![workitem("alpha", "beta"), workitem("alpha", "gamma")];
    let first = context.tide_reset(&mut resolutions);
    assert_eq!(first.count, 2);
    assert_eq!(first.message, "cleared 2 tide resolutions");
    assert!(resolutions.is_empty());
    assert_eq!(context.tide_reset(&mut resolutions).message, "cleared 0 tide resolutions");
}

#[test]
fn status_result_reflects_the_check() {
    let context = CoreContext::new("Sirno.toml");
    let check = LakeCheckResult {
        ok: true,
        root: "docs".to_owned(),
        has_errors: false,
        diagnostics: Vec::new(),
    };
    let status = context.lake_status(
        ProjectPaths { mono_path: None, lake_path: "docs".to_owned(), frost_path: None },
        None,
        true,
        Vec::new(),
        check,
        3,
    );
    assert!(status.ok);
    assert_eq!(status.config_path, "Sirno.toml");
    assert_eq!(status.frost_state, "(unlocked)");
    assert_eq!(status.entry_count, 3);
}

#[test]
fn status_report_lists_paths_fields_and_outcome() {

    let result = StatusResult {
        ok: false,
        config_path: "Sirno.toml".to_owned(),
        mono_path: None,
        lake_path: "docs".to_owned(),
        frost_path: Some("docs-frost".to_owned()),
        frost_state: "current version 2 (generation 3, mutable)".to_owned(),
        entry_count: 4,
        check_render: true,
        structural_fields: vec![StructuralFieldStatus {
            field: "topic".to_owned(),
            to: "render".to_owned(),
            from: "none".to_owned(),
            clique: "none".to_owned(),
        }],
        check: LakeCheckResult {
            ok: false,
            root: "docs".to_owned(),
            has_errors: true,
            diagnostics: vec![DiagnosticRecord {
                severity: "error".to_owned(),
                path: None,
                message: "dangling reference".to_owned(),
            }],
        },
    };
    assert_eq!(
        format_status_result(&result),
        "config: Sirno.toml\nmono: (not configured)\nlake: docs\nfrost: docs-frost\n\
frost-state: current version 2 (generation 3, mutable)\nentries: 4\nchecks:\n  render: true\n\
structural:\n  topic.to: render\n  topic.from: none\n  topic.clique: none\n\
check: failed\nerror: dangling reference\n"
    );
}

#[test]
fn query_matchers_group_by_field_in_first_appearance_order() {

    let settings = StructuralSettings::from_relations(vec![
        ("topic".to_owned(), None),
        ("area".to_owned(), None),
    ]);
    let filters = vec![
        StructuralFilter { field: "area".to_owned(), targets: vec![address("core")] },
        StructuralFilter { field: "topic".to_owned(), targets: vec![address("alpha"), address("beta")] },
        StructuralFilter { field: "area".to_owned(), targets: vec![address("cli")] },
    ];
    let states = vec![StructuralStateFilter { field: "topic".to_owned(), state: StructuralFieldState::Empty }];
    let groups = structural_matchers_by_field(filters, states, &settings).unwrap();

    assert_eq!(groups.len(), 2);
    assert_eq!(groups[0].0, "area");
    assert_eq!(groups[0].1.len(), 2);
    assert_eq!(groups[1].0, "topic");
    assert_eq!(groups[1].1.len(), 2);
    assert!(matches!(groups[1].1[1], StructuralMatcher::State(StructuralFieldState::Empty)));

    let unknown = vec![StructuralFilter { field: "kind".to_owned(), targets: Vec::new() }];
    match structural_matchers_by_field(unknown, Vec::new(), &settings) {
        Err(CommandError::UnconfiguredStructuralField(field)) => {
            assert_eq!(field, "kind");
            assert_eq!(
                CommandError::UnconfiguredStructuralField(field).message(),
                "structural field `kind` is not configured; add [structural.kind] to Sirno.toml"
            );
        }
        other => panic!("unexpected {other:?}"),
    }
}

#[test]
fn query_rows_and_records_follow_the_columns() {

    let entry = Entry::new(address("alpha"), EntryMetadata::new("Alpha", "First.").unwrap(), "");
    let columns = QueryColumns::new(vec![QueryColumn::Id, QueryColumn::Path, QueryColumn::Desc]);
    let rows = query_result_rows(&[(&entry, "docs/alpha.md".to_owned())], &columns);
    assert_eq!(rows, vec![strings(&["alpha", "docs/alpha.md", "First."])]);

    let records = query_result_records(&columns, &rows);
    assert_eq!(
        records,
        vec![vec![
            ("id".to_owned(), "alpha".to_owned()),
            ("path".to_owned(), "docs/alpha.md".to_owned()),
            ("desc".to_owned(), "First.".to_owned()),
        ]]
    );
    let results = QueryResults::new(QueryColumns::new(vec![QueryColumn::Name]), vec![strings(&["Alpha", "extra"])]);
    assert_eq!(results.records(), vec![vec![("name".to_owned(), "Alpha".to_owned())]]);
}

use sirno::context::{StructuralTarget, StructuralTargetParseError};

#[test]
fn structural_target_argument_splits_at_the_first_equals() {
    let target = StructuralTarget::from_str("topic=core.design").unwrap();
    assert_eq!(target.field, "topic");
    assert_eq!(target.target.as_str(), "core.design");

    assert!(matches!(StructuralTarget::from_str("topic"), Err(StructuralTargetParseError::MissingEquals)));
    assert!(matches!(StructuralTarget::from_str("=concept"), Err(StructuralTargetParseError::EmptyField)));
    assert!(matches!(StructuralTarget::from_str("topic=bad,id"), Err(StructuralTargetParseError::EntryId(_))));
    assert_eq!(
        StructuralTarget::from_str("topic").unwrap_err().message(),
        "expected FIELD=ENTRY_ID"
    );
}

#[test]
fn cwd_result_says_whether_the_directory_changed() {
    let context = sirno::context::CoreContext::new("Sirno.toml");
    let stayed = context.cwd(false, "/work");
    assert!(stayed.ok && !stayed.changed);
    assert_eq!(stayed.message, "current working directory is /work");
    let moved = context.cwd(true, "/work/docs");
    assert!(moved.changed);
    assert_eq!(moved.path, "/work/docs");
    assert_eq!(moved.message, "changed current working directory to /work/docs");
}

#[test]
fn move_outcomes_become_command_results() {
    let context = CoreContext::new("Sirno.toml");
    let plan_error = sirno::relocate::PathMoveError::DestinationExists("new".to_owned());
    match context.lake_move(Err(plan_error), "docs", "new") {
        Err(error) => assert_eq!(error.message(), "move destination already exists: new"),
        Ok(result) => panic!("unexpected {result:?}"),
    }
    let moved = context.lake_move(Ok(true), "docs", "new").unwrap();
    assert_eq!(moved.message, "moved lake docs to new");
    let frost_error = sirno::relocate::PathMoveError::DestinationExists("store".to_owned());
    assert!(matches!(
        context.frost_move(Some("old"), "store", Err(frost_error)),
        Err(CommandError::Move(_))
    ));
}

#[test]
fn frozen_markers_report_their_reasons_in_render_order() {
    let reviewed = FrozenMarker::reviewed();
    assert!(reviewed.is_reviewed() && !reviewed.is_managed());
    let mut marker = FrozenMarker::managed();
    marker.insert_reviewed();
    assert_eq!(marker.reasons(), vec![FrozenReason::Reviewed, FrozenReason::Managed]);
    let mut single = FrozenMarker::reviewed();
    assert!(!single.remove_reviewed());
    let mut both = FrozenMarker::managed();
    both.insert_managed();
    assert!(both.remove_reviewed());
    assert!(both.is_managed());
}
