use sirno::context::ConfigCommentResult;
use sirno::output::{
    format_config_comment_result, format_lake_check_result, format_render_result,
    format_skill_wrapper_table, DiagnosticRecord, LakeCheckResult, RenderResult,
    SkillWrapperRecord,
};

fn assert_before(text: &str, first: &str, second: &str) {
    let first_index = text.find(first).unwrap();
    let second_index = text.find(second).unwrap();
    assert!(first_index < second_index, "{first:?} should appear before {second:?} in {text:?}");
}

#[test]
fn skill_wrapper_output_uses_table() {
    let table = format_skill_wrapper_table(&[SkillWrapperRecord {
        entry_id: "lake-editing-discipline".to_owned(),
        name: "sirno-editor".to_owned(),
        wrapper_path: "sirno-docs/.artifacts/lake-editing-discipline/SKILL.md".to_owned(),
        full_path: "sirno-docs/.artifacts/lake-editing-discipline/SKILL.full.md".to_owned(),
        target_path: ".agents/skills/sirno-editor/SKILL.md".to_owned(),
        status: "ok".to_owned(),
        changed: false,
    }]);

    assert!(table.contains("status"));
    assert!(table.contains("name"));
    assert!(table.contains("target"));
    assert!(table.contains("sirno-editor"));
    assert!(table.contains(".agents/skills/sirno-editor/SKILL.md"));
    assert!(!table.contains("wrapper"));
    assert!(!table.contains('\t'));
}

#[test]
fn diagnostic_renderers_print_summary_last() {
    let diagnostic = DiagnosticRecord {
        severity: "error".to_owned(),
        path: Some("sirno-docs/entry.md".to_owned()),
        message: "dangling reference".to_owned(),
    };
    let check = format_lake_check_result(&LakeCheckResult {
        ok: false,
        root: "sirno-docs".to_owned(),
        has_errors: true,
        diagnostics: vec![diagnostic.clone()],
    });
    let render = format_render_result(&RenderResult {
        ok: false,
        dry: false,
        root: "sirno-docs".to_owned(),
        entry_count: 31,
        changed_paths: Vec::new(),
        diagnostics: vec![diagnostic],
        message: "render blocked by check errors in sirno-docs".to_owned(),
    });

    assert_before(&check, "error: sirno-docs/entry.md", "check: failed in sirno-docs");
    assert!(check.ends_with("check: failed in sirno-docs\n"));
    assert_before(
        &render,
        "error: sirno-docs/entry.md",
        "render blocked by check errors in sirno-docs",
    );
    assert!(render.ends_with("render blocked by check errors in sirno-docs\n"));
}

#[test]
fn config_comment_report_prints_summary_last() {
    let output = format_config_comment_result(&ConfigCommentResult {
        ok: false,
        changed: false,
        config_path: "Sirno.toml".to_owned(),
        missing_comments: vec!["Markdown entry lake path.".to_owned()],
        message: "1 config comments missing in Sirno.toml".to_owned(),
    });

    assert_before(&output, "missing: Markdown entry lake path.", "1 config comments missing");
    assert!(output.ends_with("1 config comments missing in Sirno.toml\n"));
}

#[test]
fn clean_check_report_names_the_root() {
    let check = format_lake_check_result(&LakeCheckResult {
        ok: true,
        root: "docs".to_owned(),
        has_errors: false,
        diagnostics: Vec::new(),
    });

    assert_eq!(check, "check: ok in docs\n");
}

#[test]
fn skill_wrappers_are_listed_checked_and_installed() {
    use_skills();
}

fn use_skills() {
    let context = sirno::context::CoreContext::new("Sirno.toml");
    let listed = context.skill_wrappers_list();
    assert!(listed.ok);
    assert_eq!(listed.message, "found 6 Sirno skill wrappers");
    assert_eq!(listed.records[1].name, "sirno-editor");
    assert_eq!(listed.records[1].wrapper_path, "sirno-docs/.artifacts/lake-editing-discipline/SKILL.md");
    assert_eq!(listed.records[1].target_path, ".agents/skills/sirno-editor/SKILL.md");
    assert!(listed.records.iter().all(|record| record.status == "source" && !record.changed));

    let specs = sirno::skills::skill_wrapper_specs();
    let observed = vec![
        (specs[0], sirno::skills::SkillTargetState::Matches),
        (specs[1], sirno::skills::SkillTargetState::Differs),
        (specs[2], sirno::skills::SkillTargetState::Missing),
    ];
    let checked = context.skill_wrappers_check(&observed);
    assert!(!checked.ok);
    assert_eq!(checked.message, "2 Sirno skill wrappers differ from artifacts");
    let statuses: Vec<&str> = checked.records.iter().map(|record| record.status.as_str()).collect();
    assert_eq!(statuses, vec!["ok", "drifted", "missing"]);

    let clean = context.skill_wrappers_check(&observed[..1]);
    assert!(clean.ok);
    assert_eq!(clean.message, "all 1 Sirno skill wrappers match artifacts");

    let installed = context.skill_wrappers_init(&observed);
    assert_eq!(installed.message, "installed 3 Sirno skill wrappers (2 changed)");
    let statuses: Vec<&str> = installed.records.iter().map(|record| record.status.as_str()).collect();
    assert_eq!(statuses, vec!["unchanged", "wrote", "wrote"]);
    assert!(sirno::skills::install_writes(sirno::skills::SkillTargetState::Missing));
    assert!(!sirno::skills::install_writes(sirno::skills::SkillTargetState::Matches));
}
