//! Human-readable reports: witness blocks, footer render summaries, tutorials and paths.

use vstd::prelude::*;

use crate::address::EntryAddress;
use crate::config::TutorialSettings;
use crate::table::{table_at_width, format_table_at_width, rows_view};
use crate::text::{decimal, has_suffix, lines_of, owned, push_decimal, push_str, strings_view, split_on, join_with};

verus! {

/// One source span, with one-based lines and columns.
#[derive(Clone, Copy, Debug, PartialEq, Eq, Structural)]
pub struct WitnessSpan {
    /// Starting line.
    pub start_line: usize,
    /// Starting column.
    pub start_column: usize,
    /// Ending line.
    pub end_line: usize,
    /// Column after the span.
    pub end_column: usize,
}

/// One repository witness block.
#[derive(Debug)]
pub struct WitnessRecord {
    /// Entry captured by the block.
    pub entry: EntryAddress,
    /// Repository file that holds the block.
    pub path: String,
    /// Full matched block region.
    pub region: WitnessSpan,
    /// Opening delimiter span.
    pub opening: WitnessSpan,
    /// Closing delimiter span.
    pub closing: WitnessSpan,
    /// Matched opening delimiter text.
    pub marker: String,
    /// Full block text.
    pub body: String,
}

impl Clone for WitnessRecord {
    fn clone(&self) -> (r: Self)
        ensures
            r.entry@ == self.entry@,
            r.path@ == self.path@,
            r.region == self.region,
            r.opening == self.opening,
            r.closing == self.closing,
            r.marker@ == self.marker@,
            r.body@ == self.body@,
    {
        WitnessRecord {
            entry: self.entry.clone(),
            path: owned(self.path.as_str()),
            region: self.region,
            opening: self.opening,
            closing: self.closing,
            marker: owned(self.marker.as_str()),
            body: owned(self.body.as_str()),
        }
    }
}

/// `path:line:start-end :: line:start-end` of the opening and closing delimiters.
pub open spec fn witness_summary(r: &WitnessRecord) -> Seq<char> {
    r.path@ + ":"@ + decimal(r.opening.start_line as nat) + ":"@ + decimal(
        r.opening.start_column as nat,
    ) + "-"@ + decimal(r.opening.end_column as nat) + " :: "@ + decimal(
        r.closing.start_line as nat,
    ) + ":"@ + decimal(r.closing.start_column as nat) + "-"@ + decimal(
        r.closing.end_column as nat,
    )
}

/// The first line of the block, or the marker when the block is empty.
pub open spec fn witness_marker_line(r: &WitnessRecord) -> Seq<char> {
    let ls = lines_of(r.body@);
    if ls.len() > 0 {
        ls[0]
    } else {
        r.marker@
    }
}

/// One witness record: the summary and first line, or the summary and the whole block.
pub open spec fn witness_text(r: &WitnessRecord, full: bool) -> Seq<char> {
    if !full {
        witness_summary(r) + "\t"@ + witness_marker_line(r) + "\n"@
    } else {
        witness_summary(r) + "\n\n"@ + r.body@ + (if has_suffix(r.body@, seq!['\n']) {
            Seq::empty()
        } else {
            "\n"@
        }) + "\n"@
    }
}

/// Witness records in order; full blocks are separated by `---` lines.
pub open spec fn witnesses_text(rs: Seq<WitnessRecord>, full: bool) -> Seq<char>
    decreases rs.len(),
{
    if rs.len() == 0 {
        Seq::empty()
    } else {
        witnesses_text(rs.drop_last(), full) + (if full && rs.len() > 1 {
            "---\n\n"@
        } else {
            Seq::empty()
        }) + witness_text(&rs.last(), full)
    }
}

/// The span summary of a witness record.
pub fn format_witness_summary(record: &WitnessRecord) -> (r: String)
    ensures
        r@ == witness_summary(record),
{
    let mut out = String::new();
    push_str(&mut out, record.path.as_str());
    push_str(&mut out, ":");
    push_decimal(&mut out, record.opening.start_line);
    push_str(&mut out, ":");
    push_decimal(&mut out, record.opening.start_column);
    push_str(&mut out, "-");
    push_decimal(&mut out, record.opening.end_column);
    push_str(&mut out, " :: ");
    push_decimal(&mut out, record.closing.start_line);
    push_str(&mut out, ":");
    push_decimal(&mut out, record.closing.start_column);
    push_str(&mut out, "-");
    push_decimal(&mut out, record.closing.end_column);
    assert(out@ =~= witness_summary(record));
    out
}

/// One witness record, summarized to its first line or shown in full.
pub fn format_witness_record(record: &WitnessRecord, full: bool) -> (r: String)
    ensures
        r@ == witness_text(record, full),
{
    let mut out = format_witness_summary(record);
    let body = crate::text::chars_of(record.body.as_str());
    if !full {
        push_str(&mut out, "\t");
        let lines = crate::text::lines_slice(body.as_slice());
        if lines.len() > 0 {
            assert(lines@[0]@ == lines_of(record.body@)[0]);
            let first = crate::text::string_from(lines[0].as_slice());
            push_str(&mut out, first.as_str());
        } else {
            push_str(&mut out, record.marker.as_str());
        }
        push_str(&mut out, "\n");
        return out;
    }
    push_str(&mut out, "\n\n");
    push_str(&mut out, record.body.as_str());
    let ghost before = out@;
    let newline = [ '\n' ];
    if !crate::text::slice_has_suffix(body.as_slice(), &newline) {
        push_str(&mut out, "\n");
    } else {
        assert(out@ =~= before + Seq::<char>::empty());
    }
    assert(newline@ =~= seq!['\n']);
    push_str(&mut out, "\n");
    out
}

/// Witness records in order; full blocks are separated by `---` lines.
pub fn format_witness_records(records: &[WitnessRecord], full: bool) -> (r: String)
    ensures
        r@ == witnesses_text(records@, full),
{
    let mut out = String::new();
    let mut i: usize = 0;
    assert(records@.take(0) =~= Seq::<WitnessRecord>::empty());
    while i < records.len()
        invariant
            i <= records@.len(),
            out@ == witnesses_text(records@.take(i as int), full),
        decreases records@.len() - i,
    {
        assert(records@.take(i + 1).drop_last() =~= records@.take(i as int));
        assert(records@.take(i + 1).last() == records@[i as int]);
        let ghost before = out@;
        if full && i > 0 {
            push_str(&mut out, "---\n\n");
        } else {
            assert(out@ =~= before + Seq::<char>::empty());
        }
        let one = format_witness_record(&records[i], full);
        push_str(&mut out, one.as_str());
        i = i + 1;
    }
    assert(records@.take(i as int) =~= records@);
    out
}

/// Summary of a footer render: the changed paths and the total, or that nothing changed.
pub open spec fn gen_link_report(root: Seq<char>, entry_count: nat, changed: Seq<Seq<char>>) -> Seq<char> {
    if changed.len() == 0 {
        "No changes in "@ + root
    } else {
        "Changes in "@ + root + ":"@ + changed_lines(changed) + "\nTotal changes: "@ + decimal(
            changed.len(),
        ) + "/"@ + decimal(entry_count)
    }
}

/// One `\n- PATH` line per changed path.
pub open spec fn changed_lines(changed: Seq<Seq<char>>) -> Seq<char>
    decreases changed.len(),
{
    if changed.len() == 0 {
        Seq::empty()
    } else {
        changed_lines(changed.drop_last()) + "\n- "@ + changed.last()
    }
}

/// Summary of a footer render over `entry_count` entries.
pub fn format_gen_link_report(root: &str, entry_count: usize, changed_paths: &[String]) -> (r: String)
    ensures
        r@ == gen_link_report(root@, entry_count as nat, strings_view(changed_paths@)),
{
    let ghost cs = strings_view(changed_paths@);
    let mut out = String::new();
    if changed_paths.len() == 0 {
        push_str(&mut out, "No changes in ");
        push_str(&mut out, root);
        return out;
    }
    push_str(&mut out, "Changes in ");
    push_str(&mut out, root);
    push_str(&mut out, ":");
    let ghost head = out@;
    let mut i: usize = 0;
    assert(cs.take(0) =~= Seq::<Seq<char>>::empty());
    assert(head + Seq::<char>::empty() =~= head);
    while i < changed_paths.len()
        invariant
            i <= cs.len(),
            cs == strings_view(changed_paths@),
            out@ == head + changed_lines(cs.take(i as int)),
        decreases cs.len() - i,
    {
        assert(cs.take(i + 1).drop_last() =~= cs.take(i as int));
        assert(cs.take(i + 1).last() == changed_paths@[i as int]@);
        push_str(&mut out, "\n- ");
        push_str(&mut out, changed_paths[i].as_str());
        assert(out@ =~= head + changed_lines(cs.take(i + 1)));
        i = i + 1;
    }
    assert(cs.take(i as int) =~= cs);
    push_str(&mut out, "\nTotal changes: ");
    push_decimal(&mut out, changed_paths.len());
    push_str(&mut out, "/");
    push_decimal(&mut out, entry_count);
    out
}

/// Tutorial text shown when a frost commit is blocked by open tide workitems.
#[derive(Clone, Copy, Debug, PartialEq, Eq, Structural)]
pub struct OpenTideTutorial {
    frost_commit_tide: bool,
    frost_bootstrap_tide: bool,
    bootstrap: bool,
}

/// Text of the tutorial under the given knobs.
pub open spec fn tutorial_text(commit: bool, bootstrap_knob: bool, bootstrap: bool) -> Seq<char> {
    if !commit {
        Seq::empty()
    } else {
        "\n\nTutorial:\nA tide is the review worklist for differences between the waterline and frostline.\n"@
            + (if bootstrap && bootstrap_knob {
            "This Frost path is still at empty version 0, so the first commit compares\nthe full lake to an empty frostline.\n"@
        } else {
            Seq::empty()
        })
            + "Inspect the work with `sirno tide status`.\nResolve reviewed work with `sirno resolve ...`,\nor choose the current lake as the baseline with `sirno commit --unsafe-resolve-all`.\nRemove `[tutorial]` from Sirno.toml, or set tutorial knobs to false, to silence tutorial text."@
    }
}

impl OpenTideTutorial {
    /// The tutorial under the configured knobs; with no tutorial settings it is silent.
    pub fn new(settings: Option<TutorialSettings>, bootstrap: bool) -> (r: Self)
        ensures
            r.spec_text() == match settings {
                Some(t) => tutorial_text(t.frost_commit_tide, t.frost_bootstrap_tide, bootstrap),
                None => Seq::empty(),
            },
    {
        match settings {
            None => OpenTideTutorial { frost_commit_tide: false, frost_bootstrap_tide: false, bootstrap },
            Some(s) => OpenTideTutorial {
                frost_commit_tide: s.frost_commit_tide,
                frost_bootstrap_tide: s.frost_bootstrap_tide,
                bootstrap,
            },
        }
    }

    /// Text of this tutorial.
    pub closed spec fn spec_text(self) -> Seq<char> {
        tutorial_text(self.frost_commit_tide, self.frost_bootstrap_tide, self.bootstrap)
    }

    /// Text of this tutorial; empty when the commit tutorial is off.
    pub fn to_string(&self) -> (r: String)
        ensures
            r@ == self.spec_text(),
    {
        let mut out = String::new();
        if !self.frost_commit_tide {
            return out;
        }
        push_str(
            &mut out,
            "\n\nTutorial:\nA tide is the review worklist for differences between the waterline and frostline.\n",
        );
        let ghost before = out@;
        if self.bootstrap && self.frost_bootstrap_tide {
            push_str(
                &mut out,
                "This Frost path is still at empty version 0, so the first commit compares\nthe full lake to an empty frostline.\n",
            );
        } else {
            assert(out@ =~= before + Seq::<char>::empty());
        }
        push_str(
            &mut out,
            "Inspect the work with `sirno tide status`.\nResolve reviewed work with `sirno resolve ...`,\nor choose the current lake as the baseline with `sirno commit --unsafe-resolve-all`.\nRemove `[tutorial]` from Sirno.toml, or set tutorial knobs to false, to silence tutorial text.",
        );
        out
    }
}

/// The upper-case form of a character, as `char::to_uppercase` yields it.
pub uninterp spec fn uppercase_text(c: char) -> Seq<char>;

/// Collects `char::to_uppercase` of the character into a string; the result is the named
/// upper-case form of that character and nothing more is claimed of it.
#[verifier::external_body]
fn uppercase(c: char) -> (r: String)
    ensures
        r@ == uppercase_text(c),
{
    c.to_uppercase().collect()
}

/// One dash-separated segment with its first character in upper case.
pub open spec fn title_word(w: Seq<char>) -> Seq<char> {
    if w.len() == 0 {
        Seq::empty()
    } else {
        uppercase_text(w[0]) + w.drop_first()
    }
}

/// A human-readable name from an address: dash-separated words, each capitalized, joined
/// with spaces.
pub open spec fn title_name(id: Seq<char>) -> Seq<char> {
    join_with(split_on(id, '-').map_values(|w: Seq<char>| title_word(w)), " "@)
}

/// A human-readable name from an address: dash-separated words, each capitalized, joined
/// with spaces.
pub fn title_name_from_id(id: &EntryAddress) -> (r: String)
    ensures
        r@ == title_name(id@),
{
    let chars = crate::text::chars_of(id.as_str());
    let parts = crate::text::split_slice(chars.as_slice(), '-');
    let ghost ws = split_on(id@, '-').map_values(|w: Seq<char>| title_word(w));
    let mut out = String::new();
    let mut i: usize = 0;
    assert(ws.take(0) =~= Seq::<Seq<char>>::empty());
    while i < parts.len()
        invariant
            i <= parts@.len(),
            parts@.map_values(|p: Vec<char>| p@) == split_on(id@, '-'),
            ws == split_on(id@, '-').map_values(|w: Seq<char>| title_word(w)),
            ws.len() == parts@.len(),
            out@ == join_with(ws.take(i as int), " "@),
        decreases parts@.len() - i,
    {
        assert(ws.take(i + 1).drop_last() =~= ws.take(i as int));
        assert(ws.take(i + 1).last() == title_word(parts@[i as int]@));
        if i > 0 {
            push_str(&mut out, " ");
        }
        let ghost before = out@;
        let part = &parts[i];
        if part.len() > 0 {
            let upper = uppercase(part[0]);
            push_str(&mut out, upper.as_str());
            let rest = crate::text::slice_range(part.as_slice(), 1, part.len());
            let rest_text = crate::text::string_from(rest.as_slice());
            push_str(&mut out, rest_text.as_str());
            assert(part@.subrange(1, part@.len() as int) =~= part@.drop_first());
        }
        assert(out@ =~= before + title_word(parts@[i as int]@));
        assert(i == 0 ==> ws.take(i + 1) =~= seq![ws[0]]);
        i = i + 1;
    }
    assert(ws.take(i as int) =~= ws);
    out
}

/// Selected path classes for an entry path lookup.
#[derive(Clone, Copy, Debug, PartialEq, Eq, Structural)]
pub struct PathSelection {
    /// The entry file.
    pub entry: bool,
    /// The artifact tree and its files.
    pub artifact: bool,
    /// The frost copy of the entry.
    pub frost: bool,
}

impl PathSelection {
    /// Every path class.
    pub fn all() -> (r: Self)
        ensures
            r == (PathSelection { entry: true, artifact: true, frost: true }),
    {
        PathSelection { entry: true, artifact: true, frost: true }
    }

    /// An explicit selection.
    pub fn new(entry: bool, artifact: bool, frost: bool) -> (r: Self)
        ensures
            r == (PathSelection { entry, artifact, frost }),
    {
        PathSelection { entry, artifact, frost }
    }

    /// The selection of the command-line flags: the flagged classes, or all when none is.
    pub fn from_args(show_entry: bool, show_artifact: bool, show_frost: bool) -> (r: Self)
        ensures
            ({
                let all = !show_entry && !show_artifact && !show_frost;
                r == (PathSelection {
                    entry: all || show_entry,
                    artifact: all || show_artifact,
                    frost: all || show_frost,
                })
            }),
    {
        let all = !show_entry && !show_artifact && !show_frost;
        PathSelection {
            entry: all || show_entry,
            artifact: all || show_artifact,
            frost: all || show_frost,
        }
    }
}

/// One filesystem path returned by an entry path lookup.
#[derive(Debug)]
pub struct PathRecord {
    /// Path class.
    pub kind: String,
    /// Display-ready path.
    pub path: String,
}

impl PathRecord {
    /// A record of one class and path.
    pub fn new(kind: &str, path: &str) -> (r: Self)
        ensures
            r.kind@ == kind@,
            r.path@ == path@,
    {
        PathRecord { kind: owned(kind), path: owned(path) }
    }
}

/// Rows of a path table.
pub open spec fn path_rows(records: Seq<PathRecord>) -> Seq<Seq<Seq<char>>> {
    records.map_values(|r: PathRecord| seq![r.kind@, r.path@])
}

/// Path records as a table under `kind` and `path`, at a width.
pub fn format_path_table_at_width(records: &[PathRecord], width: Option<u16>) -> (r: String)
    ensures
        r@ == table_at_width(seq!["kind"@, "path"@], path_rows(records@), width),
{
    let mut headers: Vec<String> = Vec::new();
    headers.push(owned("kind"));
    headers.push(owned("path"));
    assert(strings_view(headers@) =~= seq!["kind"@, "path"@]);
    let ghost target = path_rows(records@);
    let mut rows: Vec<Vec<String>> = Vec::new();
    let mut i: usize = 0;
    while i < records.len()
        invariant
            i <= records@.len(),
            target == path_rows(records@),
            rows_view(rows@) == target.take(i as int),
        decreases records@.len() - i,
    {
        let mut row: Vec<String> = Vec::new();
        row.push(owned(records[i].kind.as_str()));
        row.push(owned(records[i].path.as_str()));
        assert(strings_view(row@) =~= target[i as int]);
        let ghost prev = rows@;
        rows.push(row);
        assert(rows_view(rows@) =~= rows_view(prev).push(target[i as int]));
        assert(rows_view(rows@) =~= target.take(i + 1));
        i = i + 1;
    }
    assert(target.take(i as int) =~= target);
    format_table_at_width(headers, rows, width)
}

/// Path records as a table under `kind` and `path`, at the terminal width.
pub fn format_path_table(records: &[PathRecord]) -> (r: String)
    ensures
        exists|w: Option<u16>| r@ == table_at_width(seq!["kind"@, "path"@], path_rows(records@), w),
{
    let w = crate::table::terminal_width();
    format_path_table_at_width(records, w)
}

} // verus!
