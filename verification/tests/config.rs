use regex::Regex;
use sirno::config::{
    WitnessSettings, STANDARD_LINE_WITNESS_BEGIN_REGEX, STANDARD_MARKDOWN_WITNESS_BEGIN_REGEX,
    WITNESS_ENTRY_ADDRESS_CAPTURE_REGEX,
};
use sirno::frontmatter::has_mixed_line_endings;

#[test]
fn standard_witness_regexes_use_canonical_entry_address_capture() {
    let syntax = WitnessSettings::standard();

    for delimiter in syntax.delimiters {
        assert!(delimiter.begin.contains(WITNESS_ENTRY_ADDRESS_CAPTURE_REGEX));
        assert!(delimiter.end.contains(WITNESS_ENTRY_ADDRESS_CAPTURE_REGEX));
    }
}

#[test]
fn detects_mixed_line_endings() {
    assert!(!has_mixed_line_endings("---\nname: Entry\n---\n"));
    assert!(!has_mixed_line_endings("---\r\nname: Entry\r\n---\r\n"));
    assert!(has_mixed_line_endings("---\r\nname: Entry\n---\r\n"));
}

use sirno::config::SirnoConfig;

#[test]
fn default_project_writes_witness_syntax_and_omits_optional_tables() {
    let source = SirnoConfig::default_project().to_commented_toml();

    assert!(source.contains("[lake]"));
    assert!(source.contains("[witness]"));
    assert!(source.contains("[[witness.delimiters]]"));
    assert!(source.contains("# Sirno Lake path"));
    assert!(source.contains("# Witness delimiter regex pairs"));
    assert!(source.contains(&format!(
        "# Canonical entry-address capture: {WITNESS_ENTRY_ADDRESS_CAPTURE_REGEX}"
    )));
    assert!(!source.contains("# Opening witness delimiter regex."));
    assert!(!source.contains("# Closing witness delimiter regex."));
    assert!(!source.contains("[check]"));
    assert!(!source.contains("# Require generated footers"));
    assert!(!source.contains("structural-inhabitance"));
    assert!(!source.contains("[tutorial]"));
    assert!(source.contains("[structural]"));
    assert!(!source.contains("# Structural metadata field"));
    assert!(!source.contains("[repo]"));
}

#[test]
fn detects_missing_generated_comments() {
    let config = SirnoConfig::default_project();
    let source = config
        .to_commented_toml()
        .replace("# Sirno Lake path, resolved relative to this config file.\n", "");

    let missing = config.missing_comments_in(&source);

    assert_eq!(missing, vec!["Sirno Lake path, resolved relative to this config file.".to_owned()]);
}

#[test]
fn standard_witness_regexes_accept_dotted_paths_and_reject_other_separators() {
    let line_begin = Regex::new(STANDARD_LINE_WITNESS_BEGIN_REGEX).unwrap();
    let markdown_begin = Regex::new(STANDARD_MARKDOWN_WITNESS_BEGIN_REGEX).unwrap();

    assert!(line_begin.is_match("// sirno:witness:valid-entry:begin"));
    assert!(line_begin.is_match("// sirno:witness:core.design:begin"));
    assert!(!line_begin.is_match("// sirno:witness:bad,id:begin"));
    assert!(!line_begin.is_match("// sirno:witness:bad\rid:begin"));
    assert!(!line_begin.is_match("// sirno:witness:bad\nid:begin"));

    assert!(markdown_begin.is_match("<!-- sirno:witness:valid-entry:begin -->"));
    assert!(markdown_begin.is_match("<!-- sirno:witness:core.design:begin -->"));
    assert!(!markdown_begin.is_match("<!-- sirno:witness:bad,id:begin -->"));
    assert!(!markdown_begin.is_match("<!-- sirno:witness:bad\rid:begin -->"));
    assert!(!markdown_begin.is_match("<!-- sirno:witness:bad\nid:begin -->"));
}

#[test]
fn canonical_config_text_holds_every_comment() {
    let context = sirno::context::CoreContext::new("Sirno.toml");
    let config = sirno::config::SirnoConfig::default_project().with_tutorial();
    let canonical = config.to_commented_toml();

    let stripped: String = canonical
        .lines()
        .filter(|line| !line.starts_with("# "))
        .map(|line| format!("{line}\n"))
        .collect();
    let broken = context.config_comments_check(&config, &stripped);
    assert!(!broken.ok);
    assert!(!broken.missing_comments.is_empty());

    let fixed = context.config_comments_fix(&config, &stripped);
    assert!(fixed.changed);
    let after = context.config_comments_check(&config, &canonical);
    assert!(after.ok);
    assert!(after.missing_comments.is_empty());
    assert!(config.missing_comments_in(&canonical).is_empty());
}

use sirno::address::EntryAtom;
use sirno::config::{ConfigError, RepoMember, UpstreamSettings, WitnessDelimiterSettings};

const END_REGEX: &str = "(?m)^END ([A-Za-z0-9_-]+)$";

fn config_with_delimiter(begin: &str) -> SirnoConfig {
    let mut config = SirnoConfig::new("docs");
    config.witness = WitnessSettings { delimiters: vec![WitnessDelimiterSettings::new(begin, END_REGEX)] };
    config
}

#[test]
fn rejects_ignore_paths_outside_lake_root() {
    let mut config = SirnoConfig::new("docs");
    config.lake.ignore = vec!["../outside".to_owned()];

    let error = config.validate_for_file().unwrap_err();

    assert!(matches!(error, ConfigError::LakeIgnorePath(_)));
}

#[test]
fn rejects_repo_members_outside_config_root() {
    let error = RepoMember::new("../outside").unwrap_err();

    assert!(matches!(error, ConfigError::RepoMemberPath(_)));
}

#[test]
fn rejects_invalid_upstream_ref_selectors_and_project_paths() {
    let core = EntryAtom::new("core").unwrap();
    let mut settings = UpstreamSettings::branch("../core.git", "main");
    settings.tag = Some("stable".to_owned());
    let config = SirnoConfig::new("docs").with_upstream(core.clone(), settings);

    let error = config.validate_for_file().unwrap_err();
    assert!(matches!(error, ConfigError::UpstreamRefSelector(domain) if domain.as_str() == "core"));

    let mut settings = UpstreamSettings::branch("../core.git", "main");
    settings.project = "../core".to_owned();
    let config = SirnoConfig::new("docs").with_upstream(core, settings);

    let error = config.validate_for_file().unwrap_err();
    assert!(matches!(error, ConfigError::UpstreamProjectPath { domain, .. } if domain.as_str() == "core"));
}

#[test]
fn rejects_empty_witness_regex() {
    let error = config_with_delimiter("").validate_for_file().unwrap_err();

    assert!(matches!(
        error,
        ConfigError::WitnessRegex { field, index: 0 } if field == "witness.delimiters.begin"
    ));
}

#[test]
fn rejects_invalid_witness_regex() {
    let error = config_with_delimiter("(").validate_for_file().unwrap_err();

    assert!(matches!(
        error,
        ConfigError::WitnessRegexSyntax { field, index: 0, .. } if field == "witness.delimiters.begin"
    ));
}

#[test]
fn rejects_witness_regex_without_capture() {
    let error = config_with_delimiter("(?m)^BEGIN$").validate_for_file().unwrap_err();

    assert!(matches!(
        error,
        ConfigError::WitnessRegexCapture { field, index: 0 } if field == "witness.delimiters.begin"
    ));
}

#[test]
fn rejects_empty_matching_witness_regex() {
    let error = config_with_delimiter("()").validate_for_file().unwrap_err();

    assert!(matches!(
        error,
        ConfigError::WitnessRegexEmptyMatch { field, index: 0 } if field == "witness.delimiters.begin"
    ));
}

#[test]
fn validates_empty_witness_delimiter_list() {
    let mut config = SirnoConfig::new("docs");
    config.witness = WitnessSettings { delimiters: Vec::new() };

    config.validate_for_file().unwrap();

    assert!(config.witness.delimiters.is_empty());
}
