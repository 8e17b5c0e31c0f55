use sirno::relocate::{ConfiguredPathMove, MoveAction, MoveEvent, PathMove};

fn shown(action: &MoveAction) -> String {
    format!("{action:?}")
}

fn failed(text: &str) -> MoveEvent {
    MoveEvent::Failed(text.to_owned())
}

/// Run a move against scripted file-system reports; the operations it asked for, and
/// its last action.
fn drive(plan: &mut PathMove, reports: Vec<MoveEvent>) -> (Vec<String>, MoveAction) {
    let mut asked = Vec::new();
    let mut action = plan.step(MoveEvent::Succeeded);
    for report in reports {
        asked.push(shown(&action));
        action = plan.step(report);
    }
    (asked, action)
}

#[test]
fn unchanged_move_only_writes_config() {
    let mut plan = PathMove::new("lake", "lake/", 7);
    assert_eq!(plan.kind(), ConfiguredPathMove::Unchanged);
    let (asked, last) = drive(&mut plan, vec![MoveEvent::Succeeded]);
    assert_eq!(asked, vec!["WriteConfig".to_owned()]);
    assert_eq!(shown(&last), "Finish(Ok(false))");
    assert!(plan.is_done());
}

#[test]
fn direct_move_creates_parent_then_renames() {
    let mut plan = PathMove::new("old/lake", "new/lake", 7);
    assert_eq!(plan.kind(), ConfiguredPathMove::Direct);
    let (asked, last) = drive(
        &mut plan,
        vec![MoveEvent::NotFound, MoveEvent::Succeeded, MoveEvent::Succeeded, MoveEvent::Succeeded],
    );
    assert_eq!(
        asked,
        vec![
            "Inspect(\"new/lake\")",
            "CreateDirs(\"new\")",
            "Rename(\"old/lake\", \"new/lake\")",
            "WriteConfig",
        ]
    );
    assert_eq!(shown(&last), "Finish(Ok(true))");
}

#[test]
fn direct_move_without_parent_renames_at_once() {
    let mut plan = PathMove::new("lake", "docs", 7);
    let (asked, last) = drive(&mut plan, vec![MoveEvent::NotFound, MoveEvent::Succeeded]);
    assert_eq!(asked, vec!["Inspect(\"docs\")", "Rename(\"lake\", \"docs\")"]);
    assert_eq!(shown(&last), "WriteConfig");
}

#[test]
fn move_refuses_existing_destination() {
    let mut plan = PathMove::new("old/lake", "new/lake", 7);
    let (_, last) = drive(&mut plan, vec![MoveEvent::Succeeded]);
    match last {
        MoveAction::Finish(Err(error)) => {
            assert_eq!(error.message(), "move destination already exists: new/lake");
            assert!(error.cause().is_none());
        }
        other => panic!("unexpected {other:?}"),
    }
}

#[test]
fn move_reports_uninspectable_destination() {
    let mut plan = PathMove::new("old/lake", "new/lake", 7);
    let (_, last) = drive(&mut plan, vec![failed("permission denied")]);
    match last {
        MoveAction::Finish(Err(error)) => {
            assert_eq!(error.message(), "failed to inspect move destination new/lake");
            assert_eq!(error.cause(), Some("permission denied"));
        }
        other => panic!("unexpected {other:?}"),
    }
}

#[test]
fn direct_move_undoes_rename_when_config_write_fails() {
    let mut plan = PathMove::new("old/lake", "new/lake", 7);
    let (asked, last) = drive(
        &mut plan,
        vec![
            MoveEvent::NotFound,
            MoveEvent::Succeeded,
            MoveEvent::Succeeded,
            failed("disk full"),
            MoveEvent::Succeeded,
        ],
    );
    assert_eq!(asked[4], "Rename(\"new/lake\", \"old/lake\")");
    match last {
        MoveAction::Finish(Err(error)) => assert_eq!(error.message(), "disk full"),
        other => panic!("unexpected {other:?}"),
    }
}

#[test]
fn direct_move_reports_failed_undo() {
    let mut plan = PathMove::new("old/lake", "new/lake", 7);
    let (_, last) = drive(
        &mut plan,
        vec![
            MoveEvent::NotFound,
            MoveEvent::Succeeded,
            MoveEvent::Succeeded,
            failed("disk full"),
            failed("busy"),
        ],
    );
    match last {
        MoveAction::Finish(Err(error)) => assert_eq!(
            error.message(),
            "failed to write config after moving old/lake to new/lake; rollback failed: busy"
        ),
        other => panic!("unexpected {other:?}"),
    }
}

#[test]
fn nested_move_goes_through_a_staging_sibling() {
    let mut plan = PathMove::new("lake", "lake/inner/lake", 7);
    assert_eq!(plan.kind(), ConfiguredPathMove::Nested);
    let (asked, last) = drive(
        &mut plan,
        vec![
            MoveEvent::NotFound,
            MoveEvent::Succeeded,
            MoveEvent::NotFound,
            MoveEvent::Succeeded,
            MoveEvent::Succeeded,
            MoveEvent::Succeeded,
            MoveEvent::Succeeded,
        ],
    );
    assert_eq!(
        asked,
        vec![
            "Inspect(\"lake/inner/lake\")",
            "Inspect(\"./.sirno-move-lake-7-0\")",
            "Inspect(\"./.sirno-move-lake-7-1\")",
            "Rename(\"lake\", \"./.sirno-move-lake-7-1\")",
            "CreateDirs(\"lake/inner\")",
            "Rename(\"./.sirno-move-lake-7-1\", \"lake/inner/lake\")",
            "WriteConfig",
        ]
    );
    assert_eq!(shown(&last), "Finish(Ok(true))");
}

#[test]
fn nested_move_restores_source_when_config_write_fails() {
    let mut plan = PathMove::new("/srv/lake", "/srv/lake/inner/lake", 3);
    let (asked, last) = drive(
        &mut plan,
        vec![
            MoveEvent::NotFound,
            MoveEvent::NotFound,
            MoveEvent::Succeeded,
            MoveEvent::Succeeded,
            MoveEvent::Succeeded,
            failed("disk full"),
            MoveEvent::NotFound,
            MoveEvent::Succeeded,
            MoveEvent::Succeeded,
            MoveEvent::NotFound,
            MoveEvent::Succeeded,
        ],
    );
    assert_eq!(
        asked[6..].to_vec(),
        vec![
            "Inspect(\"/srv/.sirno-move-lake-3-0\")",
            "Rename(\"/srv/lake/inner/lake\", \"/srv/.sirno-move-lake-3-0\")",
            "RemoveDir(\"/srv/lake/inner\")",
            "RemoveDir(\"/srv/lake\")",
            "Rename(\"/srv/.sirno-move-lake-3-0\", \"/srv/lake\")",
        ]
    );
    match last {
        MoveAction::Finish(Err(error)) => assert_eq!(error.message(), "disk full"),
        other => panic!("unexpected {other:?}"),
    }
}

#[test]
fn nested_move_reports_failed_restore() {
    let mut plan = PathMove::new("lake", "lake/inner/lake", 7);
    let (asked, last) = drive(
        &mut plan,
        vec![
            MoveEvent::NotFound,
            MoveEvent::NotFound,
            MoveEvent::Succeeded,
            failed("read-only"),
            MoveEvent::Succeeded,
            failed("busy"),
        ],
    );
    assert_eq!(asked[4], "RemoveDir(\"lake/inner\")");
    assert_eq!(asked[5], "RemoveDir(\"lake\")");
    match last {
        MoveAction::Finish(Err(error)) => {
            assert_eq!(
                error.message(),
                "failed to move lake to lake/inner/lake; restoring it from ./.sirno-move-lake-7-0 failed: busy"
            );
            assert_eq!(error.cause(), Some("read-only"));
        }
        other => panic!("unexpected {other:?}"),
    }
}

#[test]
fn nested_move_reports_parent_failure_after_restoring() {
    let mut plan = PathMove::new("lake", "lake/inner/lake", 7);
    let (asked, last) = drive(
        &mut plan,
        vec![
            MoveEvent::NotFound,
            MoveEvent::NotFound,
            MoveEvent::Succeeded,
            failed("read-only"),
            MoveEvent::NotFound,
            MoveEvent::Succeeded,
            MoveEvent::Succeeded,
        ],
    );
    assert_eq!(asked[6], "Rename(\"./.sirno-move-lake-7-0\", \"lake\")");
    match last {
        MoveAction::Finish(Err(error)) => {
            assert_eq!(error.message(), "failed to create move destination parent lake/inner");
            assert_eq!(error.cause(), Some("read-only"));
        }
        other => panic!("unexpected {other:?}"),
    }
}

#[test]
fn nested_move_gives_up_when_every_staging_name_is_taken() {
    let mut plan = PathMove::new("lake", "lake/inner", 7);
    let mut action = plan.step(MoveEvent::Succeeded);
    action = match action {
        MoveAction::Inspect(_) => plan.step(MoveEvent::NotFound),
        other => panic!("unexpected {other:?}"),
    };
    let mut probes = 0;
    while let MoveAction::Inspect(_) = action {
        probes += 1;
        action = plan.step(MoveEvent::Succeeded);
    }
    assert_eq!(probes, 1000);
    match action {
        MoveAction::Finish(Err(error)) => {
            assert_eq!(error.message(), "failed to prepare a move staging path near .");
            assert_eq!(error.cause(), Some("move staging paths are unavailable near ."));
        }
        other => panic!("unexpected {other:?}"),
    }
}
