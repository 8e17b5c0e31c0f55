//! Check, render, config-comment and skill-wrapper results, and their human output.

use vstd::prelude::*;

use crate::address::EntryAddress;
use crate::check::{CheckDiagnostic, CheckReport, DiagnosticView, diagnostic_message, diagnostic_printable, diagnostics_view, severity_label};
use crate::entry::Entry;
use crate::context::ConfigCommentResult;
use crate::table::{table_at_width, format_table_at_width, rows_view};
use crate::text::{owned, push_str, strings_view};

verus! {

/// One JSON-ready diagnostic.
#[derive(Debug)]
pub struct DiagnosticRecord {
    /// Diagnostic severity label.
    pub severity: String,
    /// Path responsible for the diagnostic, when known.
    pub path: Option<String>,
    /// Human-readable diagnostic message.
    pub message: String,
}

impl Clone for DiagnosticRecord {
    fn clone(&self) -> (r: Self)
        ensures
            r.severity@ == self.severity@,
            r.message@ == self.message@,
            crate::config::opt_text(r.path) == crate::config::opt_text(self.path),
    {
        DiagnosticRecord {
            severity: owned(self.severity.as_str()),
            path: match &self.path {
                Some(p) => Some(owned(p.as_str())),
                None => None,
            },
            message: owned(self.message.as_str()),
        }
    }
}

impl DiagnosticRecord {
    /// The record of a structural diagnostic about the entry at `path`.
    pub fn from_check_diagnostic(diagnostic: &CheckDiagnostic, path: Option<&str>) -> (r: Self)
        requires
            diagnostic_printable(diagnostic@),
        ensures
            r.severity@ == severity_label(diagnostic.severity),
            r.message@ == diagnostic_message(diagnostic@),
            crate::config::opt_text(r.path) == match path {
                Some(p) => Some(p@),
                None => None,
            },
    {
        DiagnosticRecord {
            severity: owned(diagnostic.severity.label()),
            path: match path {
                Some(p) => Some(owned(p)),
                None => None,
            },
            message: diagnostic.message(),
        }
    }
}

/// Entry files: each file path with the address of the entry it holds.
pub open spec fn files_view(fs: Seq<(String, Entry)>) -> Seq<(Seq<char>, Seq<char>)> {
    fs.map_values(|f: (String, Entry)| (f.0@, f.1.id@))
}

/// Path of the first file that holds the entry at `id`.
pub open spec fn path_of_entry(files: Seq<(Seq<char>, Seq<char>)>, id: Seq<char>) -> Option<Seq<char>>
    decreases files.len(),
{
    if files.len() == 0 {
        None
    } else if files[0].1 == id {
        Some(files[0].0)
    } else {
        path_of_entry(files.drop_first(), id)
    }
}

/// Model of a diagnostic record: severity, path and message.
pub open spec fn record_view(d: DiagnosticRecord) -> (Seq<char>, Option<Seq<char>>, Seq<char>) {
    (d.severity@, crate::config::opt_text(d.path), d.message@)
}

/// Records of the printable diagnostics, in order, each with the path of its entry's file.
pub open spec fn check_records(ds: Seq<DiagnosticView>, files: Seq<(Seq<char>, Seq<char>)>) -> Seq<
    (Seq<char>, Option<Seq<char>>, Seq<char>),
>
    decreases ds.len(),
{
    if ds.len() == 0 {
        Seq::empty()
    } else {
        let init = check_records(ds.drop_last(), files);
        let d = ds.last();
        if diagnostic_printable(d) {
            init.push(
                (
                    severity_label(d.severity),
                    match d.entry {
                        Some(e) => path_of_entry(files, e),
                        None => None,
                    },
                    diagnostic_message(d),
                ),
            )
        } else {
            init
        }
    }
}

/// Path of the first file that holds the entry at `id`.
fn entry_file_path<'a>(files: &'a [(String, Entry)], id: &EntryAddress) -> (r: Option<&'a str>)
    ensures
        match r {
            Some(p) => path_of_entry(files_view(files@), id@) == Some(p@),
            None => path_of_entry(files_view(files@), id@) is None,
        },
{
    let ghost fv = files_view(files@);
    let mut i: usize = 0;
    assert(fv.skip(0) =~= fv);
    while i < files.len()
        invariant
            i <= files@.len(),
            fv == files_view(files@),
            path_of_entry(fv, id@) == path_of_entry(fv.skip(i as int), id@),
        decreases files@.len() - i,
    {
        assert(fv.skip(i as int)[0] == fv[i as int]);
        assert(fv.skip(i as int).drop_first() =~= fv.skip(i + 1));
        if files[i].1.id.same(id) {
            return Some(files[i].0.as_str());
        }
        i = i + 1;
    }
    None
}

/// Records of the printable diagnostics of a report, each with the path of its entry's file.
pub fn diagnostic_records(report: &CheckReport, files: &[(String, Entry)]) -> (r: Vec<DiagnosticRecord>)
    ensures
        r@.map_values(|d: DiagnosticRecord| record_view(d)) == check_records(report@, files_view(files@)),
{
    let diagnostics = report.diagnostics();
    let ghost ds = report@;
    let mut out: Vec<DiagnosticRecord> = Vec::new();
    let mut i: usize = 0;
    assert(ds.take(0) =~= Seq::<DiagnosticView>::empty());
    while i < diagnostics.len()
        invariant
            i <= diagnostics@.len(),
            ds == diagnostics_view(diagnostics@),
            out@.map_values(|d: DiagnosticRecord| record_view(d)) == check_records(ds.take(i as int), files_view(files@)),
        decreases diagnostics@.len() - i,
    {
        let d = &diagnostics[i];
        assert(ds.take(i + 1).drop_last() =~= ds.take(i as int));
        assert(ds.take(i + 1).last() == d@);
        let ghost before = out@;
        if d.is_printable() {
            let path = match &d.entry {
                Some(id) => entry_file_path(files, id),
                None => None,
            };
            let record = DiagnosticRecord::from_check_diagnostic(d, path);
            out.push(record);
            assert(out@.map_values(|d: DiagnosticRecord| record_view(d)) =~= before.map_values(
                |d: DiagnosticRecord| record_view(d),
            ).push(record_view(out@.last())));
        }
        i = i + 1;
    }
    assert(ds.take(diagnostics@.len() as int) =~= ds);
    out
}

/// One diagnostic line: `severity: path: message`, or `severity: message` without a path.
pub open spec fn diagnostic_line(d: &DiagnosticRecord) -> Seq<char> {
    match &d.path {
        Some(p) => d.severity@ + ": "@ + p@ + ": "@ + d.message@ + "\n"@,
        None => d.severity@ + ": "@ + d.message@ + "\n"@,
    }
}

/// Diagnostic lines in order.
pub open spec fn diagnostic_lines(ds: Seq<DiagnosticRecord>) -> Seq<char>
    decreases ds.len(),
{
    if ds.len() == 0 {
        Seq::empty()
    } else {
        diagnostic_lines(ds.drop_last()) + diagnostic_line(&ds.last())
    }
}

/// The diagnostic lines, one per diagnostic: severity, path when known, message.
pub fn format_diagnostic_lines(diagnostics: &[DiagnosticRecord]) -> (r: String)
    ensures
        r@ == diagnostic_lines(diagnostics@),
{
    let mut out = String::new();
    push_diagnostics(&mut out, diagnostics);
    assert(out@ =~= diagnostic_lines(diagnostics@));
    out
}

/// Append the diagnostic lines.
fn push_diagnostics(out: &mut String, diagnostics: &[DiagnosticRecord])
    ensures
        final(out)@ == old(out)@ + diagnostic_lines(diagnostics@),
{
    let ghost base = out@;
    let mut i: usize = 0;
    assert(diagnostics@.take(0) =~= Seq::<DiagnosticRecord>::empty());
    assert(base + Seq::<char>::empty() =~= base);
    while i < diagnostics.len()
        invariant
            i <= diagnostics@.len(),
            out@ == base + diagnostic_lines(diagnostics@.take(i as int)),
        decreases diagnostics@.len() - i,
    {
        assert(diagnostics@.take(i + 1).drop_last() =~= diagnostics@.take(i as int));
        assert(diagnostics@.take(i + 1).last() == diagnostics@[i as int]);
        let ghost before = out@;
        let d = &diagnostics[i];
        push_str(out, d.severity.as_str());
        push_str(out, ": ");
        match &d.path {
            Some(p) => {
                push_str(out, p.as_str());
                push_str(out, ": ");
            },
            None => {},
        }
        push_str(out, d.message.as_str());
        push_str(out, "\n");
        assert(out@ =~= before + diagnostic_line(d));
        assert(out@ =~= base + diagnostic_lines(diagnostics@.take(i + 1)));
        i = i + 1;
    }
    assert(diagnostics@.take(i as int) =~= diagnostics@);
}

/// JSON-ready lake check result.
#[derive(Debug)]
pub struct LakeCheckResult {
    /// Whether the check produced no errors.
    pub ok: bool,
    /// Lake root that was checked.
    pub root: String,
    /// Whether at least one error was reported.
    pub has_errors: bool,
    /// Diagnostics reported by the check.
    pub diagnostics: Vec<DiagnosticRecord>,
}

impl LakeCheckResult {
    /// The result of a check of the lake at `root`.
    pub fn from_diagnostics(root: &str, has_errors: bool, diagnostics: Vec<DiagnosticRecord>) -> (r: Self)
        ensures
            r.ok == !has_errors,
            r.has_errors == has_errors,
            r.root@ == root@,
            r.diagnostics@ == diagnostics@,
    {
        LakeCheckResult { ok: !has_errors, root: owned(root), has_errors, diagnostics }
    }
}

/// Human output of a lake check: the diagnostics, then whether the check passed.
pub open spec fn lake_check_text(r: &LakeCheckResult) -> Seq<char> {
    diagnostic_lines(r.diagnostics@) + (if r.has_errors {
        "check: failed in "@
    } else {
        "check: ok in "@
    }) + r.root@ + "\n"@
}

/// Human output of a lake check: the diagnostics, then whether the check passed.
pub fn format_lake_check_result(result: &LakeCheckResult) -> (r: String)
    ensures
        r@ == lake_check_text(result),
{
    let mut out = String::new();
    push_diagnostics(&mut out, result.diagnostics.as_slice());
    if result.has_errors {
        push_str(&mut out, "check: failed in ");
    } else {
        push_str(&mut out, "check: ok in ");
    }
    push_str(&mut out, result.root.as_str());
    push_str(&mut out, "\n");
    assert(out@ =~= lake_check_text(result));
    out
}

/// JSON-ready generated-footer render result.
#[derive(Debug)]
pub struct RenderResult {
    /// Whether rendering or dry-checking completed without blocking diagnostics.
    pub ok: bool,
    /// Whether the render only checked for changes.
    pub dry: bool,
    /// Lake root that was processed.
    pub root: String,
    /// Number of entries processed.
    pub entry_count: usize,
    /// Entry files whose generated-link region changed.
    pub changed_paths: Vec<String>,
    /// Diagnostics that blocked rendering.
    pub diagnostics: Vec<DiagnosticRecord>,
    /// Concise human-readable summary.
    pub message: String,
}

impl RenderResult {
    /// The result of a completed render over `entry_count` entries at `root`.
    pub fn from_report(root: &str, entry_count: usize, changed_paths: Vec<String>, dry: bool) -> (r: Self)
        ensures
            r.ok,
            r.dry == dry,
            r.root@ == root@,
            r.entry_count == entry_count,
            strings_view(r.changed_paths@) == strings_view(changed_paths@),
            r.diagnostics@.len() == 0,
            r.message@ == crate::report::gen_link_report(root@, entry_count as nat, strings_view(changed_paths@)),
    {
        let message = crate::report::format_gen_link_report(root, entry_count, changed_paths.as_slice());
        RenderResult {
            ok: true,
            dry,
            root: owned(root),
            entry_count,
            changed_paths,
            diagnostics: Vec::new(),
            message,
        }
    }

    /// The result of a render that check errors blocked.
    pub fn blocked(root: &str, entry_count: usize, diagnostics: Vec<DiagnosticRecord>) -> (r: Self)
        ensures
            !r.ok,
            !r.dry,
            r.root@ == root@,
            r.entry_count == entry_count,
            r.changed_paths@.len() == 0,
            r.diagnostics@ == diagnostics@,
            r.message@ == "render blocked by check errors in "@ + root@,
    {
        let mut message = String::new();
        push_str(&mut message, "render blocked by check errors in ");
        push_str(&mut message, root);
        RenderResult {
            ok: false,
            dry: false,
            root: owned(root),
            entry_count,
            changed_paths: Vec::new(),
            diagnostics,
            message,
        }
    }
}

/// Human output of a render: the blocking diagnostics, then the summary line.
pub open spec fn render_text(r: &RenderResult) -> Seq<char> {
    diagnostic_lines(r.diagnostics@) + r.message@ + "\n"@
}

/// Human output of a render: the blocking diagnostics, then the summary line.
pub fn format_render_result(result: &RenderResult) -> (r: String)
    ensures
        r@ == render_text(result),
{
    let mut out = String::new();
    push_diagnostics(&mut out, result.diagnostics.as_slice());
    push_str(&mut out, result.message.as_str());
    push_str(&mut out, "\n");
    out
}

/// One `missing: COMMENT` line per missing comment.
pub open spec fn missing_lines(cs: Seq<Seq<char>>) -> Seq<char>
    decreases cs.len(),
{
    if cs.len() == 0 {
        Seq::empty()
    } else {
        missing_lines(cs.drop_last()) + "missing: "@ + cs.last() + "\n"@
    }
}

/// Human output of a config comment check: the missing comments, then the summary line.
pub open spec fn config_comment_text(r: &ConfigCommentResult) -> Seq<char> {
    missing_lines(strings_view(r.missing_comments@)) + r.message@ + "\n"@
}

/// Human output of a config comment check: the missing comments, then the summary line.
pub fn format_config_comment_result(result: &ConfigCommentResult) -> (r: String)
    ensures
        r@ == config_comment_text(result),
{
    let ghost cs = strings_view(result.missing_comments@);
    let mut out = String::new();
    let mut i: usize = 0;
    assert(cs.take(0) =~= Seq::<Seq<char>>::empty());
    while i < result.missing_comments.len()
        invariant
            i <= cs.len(),
            cs == strings_view(result.missing_comments@),
            out@ == missing_lines(cs.take(i as int)),
        decreases cs.len() - i,
    {
        assert(cs.take(i + 1).drop_last() =~= cs.take(i as int));
        assert(cs.take(i + 1).last() == result.missing_comments@[i as int]@);
        push_str(&mut out, "missing: ");
        push_str(&mut out, result.missing_comments[i].as_str());
        push_str(&mut out, "\n");
        i = i + 1;
    }
    assert(cs.take(i as int) =~= cs);
    push_str(&mut out, result.message.as_str());
    push_str(&mut out, "\n");
    out
}

/// One bundled skill wrapper and the state of its installed copy.
#[derive(Debug)]
pub struct SkillWrapperRecord {
    /// Entry that documents the skill.
    pub entry_id: String,
    /// Skill name.
    pub name: String,
    /// Wrapper artifact path in the lake.
    pub wrapper_path: String,
    /// Full skill artifact path in the lake.
    pub full_path: String,
    /// Installed package path.
    pub target_path: String,
    /// State of the installed copy.
    pub status: String,
    /// Whether the installed copy differs or was written.
    pub changed: bool,
}

/// Result of listing, checking or installing skill wrappers.
#[derive(Debug)]
pub struct SkillWrapperResult {
    /// Whether every wrapper is as expected.
    pub ok: bool,
    /// Concise human-readable summary.
    pub message: String,
    /// One record per wrapper.
    pub records: Vec<SkillWrapperRecord>,
}

/// Rows of a skill wrapper table.
pub open spec fn skill_rows(rs: Seq<SkillWrapperRecord>) -> Seq<Seq<Seq<char>>> {
    rs.map_values(|r: SkillWrapperRecord| seq![r.status@, r.name@, r.target_path@])
}

/// Skill wrappers as a table under `status`, `name` and `target`, at a width.
pub fn format_skill_wrapper_table_at_width(records: &[SkillWrapperRecord], width: Option<u16>) -> (r: String)
    ensures
        r@ == table_at_width(seq!["status"@, "name"@, "target"@], skill_rows(records@), width),
{
    let mut headers: Vec<String> = Vec::new();
    headers.push(owned("status"));
    headers.push(owned("name"));
    headers.push(owned("target"));
    assert(strings_view(headers@) =~= seq!["status"@, "name"@, "target"@]);
    let ghost target = skill_rows(records@);
    let mut rows: Vec<Vec<String>> = Vec::new();
    let mut i: usize = 0;
    while i < records.len()
        invariant
            i <= records@.len(),
            target == skill_rows(records@),
            rows_view(rows@) == target.take(i as int),
        decreases records@.len() - i,
    {
        let mut row: Vec<String> = Vec::new();
        row.push(owned(records[i].status.as_str()));
        row.push(owned(records[i].name.as_str()));
        row.push(owned(records[i].target_path.as_str()));
        assert(strings_view(row@) =~= target[i as int]);
        let ghost prev = rows@;
        rows.push(row);
        assert(rows_view(rows@) =~= rows_view(prev).push(target[i as int]));
        assert(rows_view(rows@) =~= target.take(i + 1));
        i = i + 1;
    }
    assert(target.take(i as int) =~= target);
    format_table_at_width(headers, rows, width)
}

/// Skill wrappers as a table under `status`, `name` and `target`, at the terminal width.
pub fn format_skill_wrapper_table(records: &[SkillWrapperRecord]) -> (r: String)
    ensures
        exists|w: Option<u16>| r@ == table_at_width(seq!["status"@, "name"@, "target"@], skill_rows(records@), w),
{
    let w = crate::table::terminal_width();
    format_skill_wrapper_table_at_width(records, w)
}

} // verus!
