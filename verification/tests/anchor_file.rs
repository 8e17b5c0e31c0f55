use sirno::anchor::{AnchorError, AnchorFile, AnchorWrite, WriteAction, WriteEvent, ANCHOR_FILE_HEADER};

fn shown(action: &WriteAction) -> String {
    format!("{action:?}")
}

#[test]
fn anchor_path_sits_in_the_control_directory_next_to_the_config() {
    assert_eq!(AnchorFile::path_for_config("/tmp/project/Sirno.toml"), "/tmp/project/.sirno/anchor.toml");
    assert_eq!(AnchorFile::path_for_config("Sirno.toml"), ".sirno/anchor.toml");
    assert_eq!(AnchorFile::path_for_config("/"), "./.sirno/anchor.toml");
}

#[test]
fn framed_anchor_text_starts_with_the_header() {
    let anchor = AnchorFile { schema: 1, lake: "docs".to_owned(), entries: Vec::new() };
    let text = anchor.framed_toml("schema = 1\nlake = \"docs\"\n").unwrap();
    assert_eq!(text, format!("{ANCHOR_FILE_HEADER}schema = 1\nlake = \"docs\"\n"));
    assert!(text.starts_with("# This file is generated and managed by Sirno.\n"));

    let old = AnchorFile { schema: 2, lake: "docs".to_owned(), entries: Vec::new() };
    assert!(matches!(old.framed_toml("schema = 2\n"), Err(AnchorError::UnsupportedSchema { found: 2 })));
}

#[test]
fn anchor_write_goes_through_a_flushed_temporary_file() {
    let mut write = AnchorWrite::new("/tmp/project/.sirno/anchor.toml", 42, 7);
    let mut asked = vec![shown(&write.step(WriteEvent::Succeeded))];
    for _ in 0..4 {
        asked.push(shown(&write.step(WriteEvent::Succeeded)));
    }
    assert_eq!(
        asked,
        vec![
            "CreateDirs(\"/tmp/project/.sirno\")",
            "CreateNew(\"/tmp/project/.sirno/.anchor.toml.42.7.tmp\")",
            "WriteContents",
            "Sync",
            "Rename(\"/tmp/project/.sirno/.anchor.toml.42.7.tmp\", \"/tmp/project/.sirno/anchor.toml\")",
        ]
    );
    assert_eq!(shown(&write.step(WriteEvent::Succeeded)), "Finish(Ok(()))");
    assert!(write.is_done());
}

#[test]
fn anchor_write_removes_the_temporary_file_after_a_failed_write() {
    let mut write = AnchorWrite::new("anchor.toml", 1, 2);
    assert_eq!(shown(&write.step(WriteEvent::Succeeded)), "CreateDirs(\"\")");
    assert_eq!(shown(&write.step(WriteEvent::Succeeded)), "CreateNew(\".anchor.toml.1.2.tmp\")");
    assert_eq!(shown(&write.step(WriteEvent::Succeeded)), "WriteContents");
    assert_eq!(shown(&write.step(WriteEvent::Failed("disk full".to_owned()))), "RemoveFile(\".anchor.toml.1.2.tmp\")");
    match write.step(WriteEvent::Failed("gone".to_owned())) {
        WriteAction::Finish(Err(error)) => {
            assert_eq!(error.message(), "failed to write temporary anchor file .anchor.toml.1.2.tmp");
            assert_eq!(error.cause(), "disk full");
        }
        other => panic!("unexpected {other:?}"),
    }
}

#[test]
fn anchor_write_reports_a_failed_replace() {
    let mut write = AnchorWrite::new("base/anchor.toml", 1, 2);
    for _ in 0..5 {
        write.step(WriteEvent::Succeeded);
    }
    assert_eq!(
        shown(&write.step(WriteEvent::Failed("busy".to_owned()))),
        "RemoveFile(\"base/.anchor.toml.1.2.tmp\")"
    );
    match write.step(WriteEvent::Succeeded) {
        WriteAction::Finish(Err(error)) => assert_eq!(
            error.message(),
            "failed to replace anchor file base/anchor.toml from base/.anchor.toml.1.2.tmp"
        ),
        other => panic!("unexpected {other:?}"),
    }
}

#[test]
fn anchor_write_stops_when_the_temporary_file_cannot_be_created() {
    let mut write = AnchorWrite::new("base/anchor.toml", 1, 2);
    write.step(WriteEvent::Succeeded);
    match write.step(WriteEvent::Succeeded) {
        WriteAction::CreateNew(path) => assert_eq!(path, "base/.anchor.toml.1.2.tmp"),
        other => panic!("unexpected {other:?}"),
    }
    match write.step(WriteEvent::Failed("exists".to_owned())) {
        WriteAction::Finish(Err(error)) => {
            assert_eq!(error.message(), "failed to create temporary anchor file base/.anchor.toml.1.2.tmp")
        }
        other => panic!("unexpected {other:?}"),
    }
}

#[test]
fn anchor_write_reports_a_directory_that_cannot_be_created() {
    let mut write = AnchorWrite::new("base/anchor.toml", 1, 2);
    write.step(WriteEvent::Succeeded);
    match write.step(WriteEvent::Failed("read-only".to_owned())) {
        WriteAction::Finish(Err(error)) => {
            assert_eq!(error.message(), "failed to create anchor directory base");
            assert_eq!(error.cause(), "read-only");
        }
        other => panic!("unexpected {other:?}"),
    }
}
