//! The tide: review workitems raised by structural link changes, and their human output.
//!
//! A workitem asks to review entry `neighbor` because entry `ripple` changed and the two
//! are linked through `field` in `direction`. Workitems come grouped by wave (the ripple
//! entry) or by review entry (the neighbor), each group in address order.

use vstd::prelude::*;

use crate::address::{EntryAddress, text_less};
use crate::entry::addresses_view;
use crate::sorted::{strictly_sorted, insert_sorted};
use crate::structural::{StructuralEdgeDirection, validate_structural_field_name};
use crate::table::{table_at_width, format_table_at_width, rows_view};
use crate::text::{decimal, join_with, lines_of, owned, push_char, push_decimal, push_str, strings_view};

verus! {

/// Where a workitem was observed.
#[derive(Clone, Copy, Debug, PartialEq, Eq, Structural)]
pub enum TideSource {
    /// Between the waterline and the current lake.
    Lake,
    /// Between frost versions.
    Frost,
}

/// Label of a source.
pub open spec fn source_label(s: TideSource) -> Seq<char> {
    match s {
        TideSource::Lake => "lake"@,
        TideSource::Frost => "frost"@,
    }
}

/// One review workitem.
#[derive(Debug)]
pub struct TideWorkitem {
    /// Entry whose change raised the workitem.
    pub ripple: EntryAddress,
    /// Structural relation through which the change propagates.
    pub field: String,
    /// Direction of the link, seen from the ripple entry.
    pub direction: StructuralEdgeDirection,
    /// Entry to review.
    pub neighbor: EntryAddress,
}

/// Why a workitem cannot be built.
#[derive(Clone, Debug, PartialEq, Eq)]
pub enum TideWorkitemError {
    /// The relation name cannot be a structural field.
    InvalidField(String),
}

impl TideWorkitem {
    /// A workitem; the relation name must be a valid structural field.
    pub fn new(
        ripple: EntryAddress,
        field: &str,
        direction: StructuralEdgeDirection,
        neighbor: EntryAddress,
    ) -> (r: Result<Self, TideWorkitemError>)
        ensures
            r is Ok <==> !crate::structural::malformed_field_name(field@)
                && !crate::structural::reserved_field_name(field@),
            r matches Ok(w) ==> w.ripple@ == ripple@ && w.field@ == field@ && w.direction
                == direction && w.neighbor@ == neighbor@,
            r matches Err(TideWorkitemError::InvalidField(f)) ==> f@ == field@,
    {
        match validate_structural_field_name(field) {
            Ok(()) => Ok(TideWorkitem { ripple, field: owned(field), direction, neighbor }),
            Err(_) => Err(TideWorkitemError::InvalidField(owned(field))),
        }
    }
}

/// One workitem with where it was seen and whether it was reviewed.
#[derive(Debug)]
pub struct TideStatus {
    /// The workitem.
    pub workitem: TideWorkitem,
    /// Where the workitem was observed, in order.
    pub sources: Vec<TideSource>,
    /// Fingerprint of the reviewed state.
    pub fingerprint: String,
    /// Whether the workitem was reviewed.
    pub resolved: bool,
}

impl Clone for TideWorkitem {
    fn clone(&self) -> (r: Self)
        ensures
            r.ripple@ == self.ripple@,
            r.field@ == self.field@,
            r.direction == self.direction,
            r.neighbor@ == self.neighbor@,
    {
        TideWorkitem {
            ripple: self.ripple.clone(),
            field: owned(self.field.as_str()),
            direction: self.direction,
            neighbor: self.neighbor.clone(),
        }
    }
}

impl Clone for TideStatus {
    fn clone(&self) -> (r: Self)
        ensures
            r@ == self@,
            r.fingerprint@ == self.fingerprint@,
    {
        let mut sources: Vec<TideSource> = Vec::new();
        let mut i: usize = 0;
        while i < self.sources.len()
            invariant
                i <= self.sources@.len(),
                sources@ == self.sources@.subrange(0, i as int),
            decreases self.sources@.len() - i,
        {
            sources.push(self.sources[i]);
            i = i + 1;
            assert(sources@ =~= self.sources@.subrange(0, i as int));
        }
        assert(self.sources@.subrange(0, i as int) =~= self.sources@);
        TideStatus {
            workitem: self.workitem.clone(),
            sources,
            fingerprint: owned(self.fingerprint.as_str()),
            resolved: self.resolved,
        }
    }
}

/// Spec view of a status.
pub struct StatusView {
    pub ripple: Seq<char>,
    pub field: Seq<char>,
    pub direction: StructuralEdgeDirection,
    pub neighbor: Seq<char>,
    pub sources: Seq<TideSource>,
    pub fingerprint: Seq<char>,
    pub resolved: bool,
}

impl View for TideStatus {
    type V = StatusView;

    open spec fn view(&self) -> StatusView {
        StatusView {
            ripple: self.workitem.ripple@,
            field: self.workitem.field@,
            direction: self.workitem.direction,
            neighbor: self.workitem.neighbor@,
            sources: self.sources@,
            fingerprint: self.fingerprint@,
            resolved: self.resolved,
        }
    }
}

/// Views of statuses.
pub open spec fn statuses_view(v: Seq<TideStatus>) -> Seq<StatusView> {
    v.map_values(|s: TideStatus| s@)
}

/// State label of a status.
pub open spec fn state_label(s: StatusView) -> Seq<char> {
    if s.resolved {
        "resolved"@
    } else {
        "open"@
    }
}

/// Source labels joined with commas.
pub open spec fn sources_label(ss: Seq<TideSource>) -> Seq<char> {
    join_with(ss.map_values(|s: TideSource| source_label(s)), ","@)
}

/// State label of a status.
pub fn tide_state_label(status: &TideStatus) -> (r: &'static str)
    ensures
        r@ == state_label(status@),
{
    if status.resolved {
        "resolved"
    } else {
        "open"
    }
}

/// Source labels of a status joined with commas.
pub fn tide_sources_label(status: &TideStatus) -> (r: String)
    ensures
        r@ == sources_label(status@.sources),
{
    let ghost ls = status@.sources.map_values(|s: TideSource| source_label(s));
    let mut out = String::new();
    let mut i: usize = 0;
    assert(ls.take(0) =~= Seq::<Seq<char>>::empty());
    while i < status.sources.len()
        invariant
            i <= ls.len(),
            ls == status@.sources.map_values(|s: TideSource| source_label(s)),
            out@ == join_with(ls.take(i as int), ","@),
        decreases ls.len() - i,
    {
        assert(ls.take(i + 1).drop_last() =~= ls.take(i as int));
        assert(ls.take(i + 1).last() == source_label(status.sources@[i as int]));
        if i > 0 {
            push_str(&mut out, ",");
        }
        match status.sources[i] {
            TideSource::Lake => push_str(&mut out, "lake"),
            TideSource::Frost => push_str(&mut out, "frost"),
        }
        assert(i == 0 ==> ls.take(i + 1) =~= seq![ls[0]]);
        i = i + 1;
    }
    assert(ls.take(i as int) =~= ls);
    out
}

/// `singular` when the count is one, `plural` otherwise.
pub open spec fn plural_spec(count: nat, singular: Seq<char>, plural: Seq<char>) -> Seq<char> {
    if count == 1 {
        singular
    } else {
        plural
    }
}

/// `singular` when the count is one, `plural` otherwise.
pub fn plural<'a>(count: usize, singular: &'a str, many: &'a str) -> (r: &'a str)
    ensures
        r@ == plural_spec(count as nat, singular@, many@),
{
    if count == 1 {
        singular
    } else {
        many
    }
}

/// The one-sentence summary of a tide.
pub open spec fn summary_sentence(open: nat, resolved: nat, waves: nat, entries: nat) -> Seq<char> {
    "The tide has "@ + decimal(open) + " open "@ + plural_spec(open, "workitem"@, "workitems"@)
        + (if resolved == 0 {
        Seq::empty()
    } else {
        " and "@ + decimal(resolved) + " resolved "@ + plural_spec(
            resolved,
            "workitem"@,
            "workitems"@,
        )
    }) + " in "@ + decimal(waves) + " "@ + plural_spec(waves, "wave"@, "waves"@) + ", with "@
        + decimal(entries) + " unique "@ + plural_spec(entries, "review entry"@, "review entries"@)
        + "."@
}

/// The one-sentence summary of a tide.
pub fn tide_summary_sentence(
    open_count: usize,
    resolved_count: usize,
    wave_count: usize,
    review_entry_count: usize,
) -> (r: String)
    ensures
        r@ == summary_sentence(
            open_count as nat,
            resolved_count as nat,
            wave_count as nat,
            review_entry_count as nat,
        ),
{
    let mut out = String::new();
    push_str(&mut out, "The tide has ");
    push_decimal(&mut out, open_count);
    push_str(&mut out, " open ");
    push_str(&mut out, plural(open_count, "workitem", "workitems"));
    let ghost a = out@;
    if resolved_count != 0 {
        push_str(&mut out, " and ");
        push_decimal(&mut out, resolved_count);
        push_str(&mut out, " resolved ");
        push_str(&mut out, plural(resolved_count, "workitem", "workitems"));
    } else {
        assert(out@ =~= a + Seq::<char>::empty());
    }
    push_str(&mut out, " in ");
    push_decimal(&mut out, wave_count);
    push_str(&mut out, " ");
    push_str(&mut out, plural(wave_count, "wave", "waves"));
    push_str(&mut out, ", with ");
    push_decimal(&mut out, review_entry_count);
    push_str(&mut out, " unique ");
    push_str(&mut out, plural(review_entry_count, "review entry", "review entries"));
    push_str(&mut out, ".");
    assert(out@ =~= summary_sentence(
        open_count as nat,
        resolved_count as nat,
        wave_count as nat,
        review_entry_count as nat,
    ));
    out
}

/// A row separator line redrawn with heavy strokes.
pub open spec fn heavy_line(line: Seq<char>) -> Seq<char> {
    Seq::new(
        line.len(),
        |i: int|
            if i == 0 {
                '╞'
            } else if i + 1 == line.len() {
                '╡'
            } else if line[i] == '┼' {
                '╪'
            } else {
                '═'
            },
    )
}

/// A row separator redrawn with heavy strokes: the ends become `╞` and `╡`, crossings `╪`,
/// everything else `═`.
pub fn heavy_table_separator(separator: &str) -> (r: String)
    ensures
        r@ == heavy_line(separator@),
{
    let chars = crate::text::chars_of(separator);
    let n = chars.len();
    let mut out = String::new();
    let mut i: usize = 0;
    while i < n
        invariant
            i <= n,
            n == chars@.len(),
            chars@ == separator@,
            out@ == heavy_line(separator@).take(i as int),
        decreases n - i,
    {
        let c = if i == 0 {
            '╞'
        } else if i + 1 == n {
            '╡'
        } else if chars[i] == '┼' {
            '╪'
        } else {
            '═'
        };
        push_char(&mut out, c);
        assert(out@ =~= heavy_line(separator@).take(i + 1));
        i = i + 1;
    }
    assert(heavy_line(separator@).take(i as int) =~= heavy_line(separator@));
    out
}

/// Line index of the separator above table row `row` (header and border lines included).
pub open spec fn separator_index(row: int) -> int {
    2 * row + 2
}

/// Lines with the separators above the given rows redrawn heavy, when they exist.
pub open spec fn heavy_rows(lines: Seq<Seq<char>>, rows: Seq<usize>) -> Seq<Seq<char>>
    decreases rows.len(),
{
    if rows.len() == 0 {
        lines
    } else {
        let ls = heavy_rows(lines, rows.drop_last());
        let k = separator_index(rows.last() as int);
        if k < ls.len() {
            ls.update(k, heavy_line(ls[k]))
        } else {
            ls
        }
    }
}

/// A table with the separators above the given rows redrawn heavy.
pub open spec fn strengthened(table: Seq<char>, rows: Seq<usize>) -> Seq<char> {
    if rows.len() == 0 {
        table
    } else {
        join_with(heavy_rows(lines_of(table), rows), "\n"@).push('\n')
    }
}

/// Redraw the separators above the given rows with heavy strokes.
pub fn strengthen_tide_group_separators(table: &str, group_start_rows: &[usize]) -> (r: String)
    ensures
        r@ == strengthened(table@, group_start_rows@),
{
    if group_start_rows.len() == 0 {
        return owned(table);
    }
    let chars = crate::text::chars_of(table);
    let line_chars = crate::text::lines_slice(chars.as_slice());
    let mut lines: Vec<String> = Vec::new();
    let mut i: usize = 0;
    while i < line_chars.len()
        invariant
            i <= line_chars@.len(),
            strings_view(lines@) == line_chars@.map_values(|l: Vec<char>| l@).take(i as int),
        decreases line_chars@.len() - i,
    {
        let ghost prev = lines@;
        lines.push(crate::text::string_from(line_chars[i].as_slice()));
        assert(strings_view(lines@) =~= strings_view(prev).push(line_chars@[i as int]@));
        assert(strings_view(lines@) =~= line_chars@.map_values(|l: Vec<char>| l@).take(i + 1));
        i = i + 1;
    }
    assert(line_chars@.map_values(|l: Vec<char>| l@).take(i as int) =~= lines_of(table@));
    let ghost rows = group_start_rows@;
    let mut k: usize = 0;
    assert(rows.take(0) =~= Seq::<usize>::empty());
    while k < group_start_rows.len()
        invariant
            k <= rows.len(),
            rows == group_start_rows@,
            strings_view(lines@) == heavy_rows(lines_of(table@), rows.take(k as int)),
        decreases rows.len() - k,
    {
        assert(rows.take(k + 1).drop_last() =~= rows.take(k as int));
        let row = group_start_rows[k];
        let n = lines.len();
        let index = match row.checked_mul(2) {
            Some(d) => match d.checked_add(2) {
                Some(i) => i,
                None => n,
            },
            None => n,
        };
        if index < n {
            let heavy = heavy_table_separator(lines[index].as_str());
            let ghost prev = lines@;
            lines.set(index, heavy);
            assert(strings_view(lines@) =~= strings_view(prev).update(
                index as int,
                heavy_line(prev[index as int]@),
            ));
        }
        k = k + 1;
    }
    assert(rows.take(k as int) =~= rows);
    let mut out = String::new();
    let mut j: usize = 0;
    let ghost ls = strings_view(lines@);
    assert(ls.take(0) =~= Seq::<Seq<char>>::empty());
    while j < lines.len()
        invariant
            j <= ls.len(),
            ls == strings_view(lines@),
            out@ == join_with(ls.take(j as int), "\n"@),
        decreases ls.len() - j,
    {
        assert(ls.take(j + 1).drop_last() =~= ls.take(j as int));
        assert(ls.take(j + 1).last() == lines@[j as int]@);
        if j > 0 {
            push_str(&mut out, "\n");
        }
        push_str(&mut out, lines[j].as_str());
        assert(j == 0 ==> ls.take(j + 1) =~= seq![ls[0]]);
        j = j + 1;
    }
    assert(ls.take(j as int) =~= ls);
    push_char(&mut out, '\n');
    out
}


/// The grouping key of a status: its ripple entry, or its review entry.
pub open spec fn key_of(s: StatusView, by_ripple: bool) -> Seq<char> {
    if by_ripple {
        s.ripple
    } else {
        s.neighbor
    }
}

/// Some status (an open one, when `open_only`) has key `t`.
pub open spec fn has_key(ss: Seq<StatusView>, by_ripple: bool, open_only: bool, t: Seq<char>) -> bool {
    exists|i: int|
        0 <= i < ss.len() && (open_only ==> !ss[i].resolved) && #[trigger] key_of(ss[i], by_ripple)
            == t
}

/// Some open status has key `key` and the other entry `t`.
pub open spec fn has_partner(ss: Seq<StatusView>, by_ripple: bool, key: Seq<char>, t: Seq<char>) -> bool {
    exists|i: int|
        0 <= i < ss.len() && !ss[i].resolved && key_of(ss[i], by_ripple) == key && #[trigger] partner_of(
            ss[i],
            by_ripple,
        ) == t
}

/// The other entry of a status: its review entry, or its ripple entry.
pub open spec fn partner_of(s: StatusView, by_ripple: bool) -> Seq<char> {
    if by_ripple {
        s.neighbor
    } else {
        s.ripple
    }
}

/// The keys of the statuses, in address order, each once.
pub open spec fn key_set(ss: Seq<StatusView>, by_ripple: bool, open_only: bool) -> Seq<Seq<char>> {
    choose|s: Seq<Seq<char>>|
        strictly_sorted(s) && forall|t: Seq<char>| #[trigger]
            s.contains(t) <==> has_key(ss, by_ripple, open_only, t)
}

/// The other entries of the open statuses with key `key`, in address order, each once.
pub open spec fn partner_set(ss: Seq<StatusView>, by_ripple: bool, key: Seq<char>) -> Seq<Seq<char>> {
    choose|s: Seq<Seq<char>>|
        strictly_sorted(s) && forall|t: Seq<char>| #[trigger]
            s.contains(t) <==> has_partner(ss, by_ripple, key, t)
}

/// The statuses with key `key`, in their order.
pub open spec fn with_key(ss: Seq<StatusView>, by_ripple: bool, key: Seq<char>) -> Seq<StatusView>
    decreases ss.len(),
{
    if ss.len() == 0 {
        Seq::empty()
    } else if key_of(ss.last(), by_ripple) == key {
        with_key(ss.drop_last(), by_ripple, key).push(ss.last())
    } else {
        with_key(ss.drop_last(), by_ripple, key)
    }
}

/// Number of open statuses.
pub open spec fn open_count(ss: Seq<StatusView>) -> nat
    decreases ss.len(),
{
    if ss.len() == 0 {
        0
    } else {
        open_count(ss.drop_last()) + if ss.last().resolved {
            0nat
        } else {
            1nat
        }
    }
}

/// Rank of a direction in declaration order.
pub open spec fn direction_rank(d: StructuralEdgeDirection) -> int {
    match d {
        StructuralEdgeDirection::To => 0,
        StructuralEdgeDirection::From => 1,
        StructuralEdgeDirection::Clique => 2,
    }
}

/// Workitem order: by ripple, field, direction, then review entry.
pub open spec fn workitem_less(a: StatusView, b: StatusView) -> bool {
    ||| text_less(a.ripple, b.ripple)
    ||| a.ripple == b.ripple && text_less(a.field, b.field)
    ||| a.ripple == b.ripple && a.field == b.field && direction_rank(a.direction) < direction_rank(
        b.direction,
    )
    ||| a.ripple == b.ripple && a.field == b.field && a.direction == b.direction && text_less(
        a.neighbor,
        b.neighbor,
    )
}

/// Index of the first status that `x` comes before, or the length.
pub open spec fn insert_position(sorted: Seq<StatusView>, x: StatusView) -> int
    decreases sorted.len(),
{
    if sorted.len() == 0 {
        0
    } else if workitem_less(x, sorted[0]) {
        0
    } else {
        insert_position(sorted.drop_first(), x) + 1
    }
}

/// The statuses sorted by workitem, equal ones kept in their order.
pub open spec fn sort_statuses(ss: Seq<StatusView>) -> Seq<StatusView>
    decreases ss.len(),
{
    if ss.len() == 0 {
        Seq::empty()
    } else {
        let sorted = sort_statuses(ss.drop_last());
        sorted.insert(insert_position(sorted, ss.last()), ss.last())
    }
}

/// Cells of a status row grouped by wave.
pub open spec fn wave_cells(s: StatusView) -> Seq<Seq<char>> {
    seq![s.neighbor, state_label(s), s.field, s.direction.spec_label(), sources_label(s.sources)]
}

/// Cells of a status row grouped by review entry.
pub open spec fn entry_cells(s: StatusView) -> Seq<Seq<char>> {
    seq![s.ripple, state_label(s), s.field, s.direction.spec_label(), sources_label(s.sources)]
}

/// How tide rows are grouped.
#[derive(Clone, Copy, Debug, PartialEq, Eq, Structural)]
pub enum TideGrouping {
    /// Open review entries grouped by wave.
    ReviewWaves,
    /// Open waves grouped by review entry.
    ReviewEntries,
    /// All statuses grouped by wave.
    StatusWaves,
    /// All statuses grouped by review entry.
    StatusEntries,
}

/// The group keys of a grouping.
pub open spec fn keys_for(kind: TideGrouping, ss: Seq<StatusView>) -> Seq<Seq<char>> {
    match kind {
        TideGrouping::ReviewWaves => key_set(ss, true, true),
        TideGrouping::ReviewEntries => key_set(ss, false, true),
        TideGrouping::StatusWaves => key_set(ss, true, false),
        TideGrouping::StatusEntries => key_set(ss, false, false),
    }
}

/// The cells after the key cell of the rows of one group.
pub open spec fn tails_for(kind: TideGrouping, ss: Seq<StatusView>, key: Seq<char>) -> Seq<Seq<Seq<char>>> {
    match kind {
        TideGrouping::ReviewWaves => partner_set(ss, true, key).map_values(|n: Seq<char>| seq![n]),
        TideGrouping::ReviewEntries => partner_set(ss, false, key).map_values(|r: Seq<char>| seq![r]),
        TideGrouping::StatusWaves => with_key(ss, true, key).map_values(|s: StatusView| wave_cells(s)),
        TideGrouping::StatusEntries => sort_statuses(with_key(ss, false, key)).map_values(
            |s: StatusView| entry_cells(s),
        ),
    }
}

/// One table row: its cells, and whether it starts a group.
pub type RowView = (Seq<Seq<char>>, bool);

/// Rows of one group: the key in the first row's first cell, blank below it.
pub open spec fn group_rows(key: Seq<char>, tails: Seq<Seq<Seq<char>>>) -> Seq<RowView> {
    Seq::new(
        tails.len(),
        |j: int|
            (
                seq![
                    if j == 0 {
                        key
                    } else {
                        Seq::<char>::empty()
                    },
                ] + tails[j],
                j == 0,
            ),
    )
}

/// Rows of the groups of the given keys, in key order.
pub open spec fn keyed_rows(kind: TideGrouping, ss: Seq<StatusView>, keys: Seq<Seq<char>>) -> Seq<RowView>
    decreases keys.len(),
{
    if keys.len() == 0 {
        Seq::empty()
    } else {
        keyed_rows(kind, ss, keys.drop_last()) + group_rows(keys.last(), tails_for(kind, ss, keys.last()))
    }
}

/// Indices of the rows after the first that start a group.
pub open spec fn group_starts(rows: Seq<RowView>) -> Seq<usize>
    decreases rows.len(),
{
    if rows.len() == 0 {
        Seq::empty()
    } else if rows.last().1 && rows.len() - 1 > 0 {
        group_starts(rows.drop_last()).push((rows.len() - 1) as usize)
    } else {
        group_starts(rows.drop_last())
    }
}

/// A grouped table: the table of the rows' cells, with heavy separators above group starts.
pub open spec fn grouped_table(headers: Seq<Seq<char>>, rows: Seq<RowView>, width: Option<u16>) -> Seq<char> {
    strengthened(
        table_at_width(headers, rows.map_values(|r: RowView| r.0), width),
        group_starts(rows),
    )
}

/// One row of a grouped tide table.
#[derive(Debug)]
pub struct TideGroupedTableRow {
    /// Cell texts.
    pub cells: Vec<String>,
    /// Whether the row starts a group.
    pub starts_group: bool,
}

/// Views of grouped rows.
pub open spec fn grouped_rows_view(rows: Seq<TideGroupedTableRow>) -> Seq<RowView> {
    rows.map_values(|r: TideGroupedTableRow| (strings_view(r.cells@), r.starts_group))
}

/// Render grouped rows as one table with heavy separators above each later group.
pub fn format_tide_grouped_table(
    headers: Vec<String>,
    rows: Vec<TideGroupedTableRow>,
    width: Option<u16>,
) -> (r: String)
    ensures
        r@ == grouped_table(strings_view(headers@), grouped_rows_view(rows@), width),
{
    let ghost rv = grouped_rows_view(rows@);
    let mut starts: Vec<usize> = Vec::new();
    let mut cells: Vec<Vec<String>> = Vec::new();
    let mut i: usize = 0;
    assert(rv.take(0) =~= Seq::<RowView>::empty());
    while i < rows.len()
        invariant
            i <= rv.len(),
            rv == grouped_rows_view(rows@),
            starts@ == group_starts(rv.take(i as int)),
            rows_view(cells@) == rv.take(i as int).map_values(|r: RowView| r.0),
        decreases rv.len() - i,
    {
        assert(rv.take(i + 1).drop_last() =~= rv.take(i as int));
        assert(rv.take(i + 1).last() == rv[i as int]);
        if rows[i].starts_group && i > 0 {
            starts.push(i);
        }
        let ghost prev = cells@;
        let copy = copy_strings(&rows[i].cells);
        cells.push(copy);
        assert(rows_view(cells@) =~= rows_view(prev).push(rv[i as int].0));
        assert(rows_view(cells@) =~= rv.take(i + 1).map_values(|r: RowView| r.0));
        i = i + 1;
    }
    assert(rv.take(i as int) =~= rv);
    let table = format_table_at_width(headers, cells, width);
    strengthen_tide_group_separators(table.as_str(), starts.as_slice())
}

/// A copy of the strings.
fn copy_strings(v: &Vec<String>) -> (r: Vec<String>)
    ensures
        strings_view(r@) == strings_view(v@),
{
    let mut r: Vec<String> = Vec::new();
    let mut i: usize = 0;
    while i < v.len()
        invariant
            i <= v@.len(),
            strings_view(r@) == strings_view(v@).take(i as int),
        decreases v@.len() - i,
    {
        let ghost prev = r@;
        r.push(owned(v[i].as_str()));
        assert(strings_view(r@) =~= strings_view(prev).push(v@[i as int]@));
        assert(strings_view(r@) =~= strings_view(v@).take(i + 1));
        i = i + 1;
    }
    assert(strings_view(v@).take(i as int) =~= strings_view(v@));
    r
}


proof fn lemma_key_set(s: Seq<Seq<char>>, ss: Seq<StatusView>, by_ripple: bool, open_only: bool)
    requires
        strictly_sorted(s),
        forall|t: Seq<char>| #[trigger] s.contains(t) <==> has_key(ss, by_ripple, open_only, t),
    ensures
        key_set(ss, by_ripple, open_only) == s,
{
    let c = key_set(ss, by_ripple, open_only);
    assert(strictly_sorted(c) && forall|t: Seq<char>| #[trigger]
        c.contains(t) <==> has_key(ss, by_ripple, open_only, t));
    crate::sorted::lemma_sorted_unique(s, c);
}

proof fn lemma_partner_set(s: Seq<Seq<char>>, ss: Seq<StatusView>, by_ripple: bool, key: Seq<char>)
    requires
        strictly_sorted(s),
        forall|t: Seq<char>| #[trigger] s.contains(t) <==> has_partner(ss, by_ripple, key, t),
    ensures
        partner_set(ss, by_ripple, key) == s,
{
    let c = partner_set(ss, by_ripple, key);
    assert(strictly_sorted(c) && forall|t: Seq<char>| #[trigger]
        c.contains(t) <==> has_partner(ss, by_ripple, key, t));
    crate::sorted::lemma_sorted_unique(s, c);
}

/// The key address of a status.
fn status_key(s: &TideStatus, by_ripple: bool) -> (r: &EntryAddress)
    ensures
        r@ == key_of(s@, by_ripple),
{
    if by_ripple {
        &s.workitem.ripple
    } else {
        &s.workitem.neighbor
    }
}

/// The other address of a status.
fn status_partner(s: &TideStatus, by_ripple: bool) -> (r: &EntryAddress)
    ensures
        r@ == partner_of(s@, by_ripple),
{
    if by_ripple {
        &s.workitem.neighbor
    } else {
        &s.workitem.ripple
    }
}

/// The keys of the statuses (the open ones, when `open_only`), sorted, each once.
fn collect_keys(statuses: &[TideStatus], by_ripple: bool, open_only: bool) -> (r: Vec<EntryAddress>)
    ensures
        addresses_view(r@) == key_set(statuses_view(statuses@), by_ripple, open_only),
{
    let ghost ss = statuses_view(statuses@);
    let mut keys: Vec<EntryAddress> = Vec::new();
    assert(addresses_view(keys@) =~= Seq::<Seq<char>>::empty());
    let mut i: usize = 0;
    while i < statuses.len()
        invariant
            i <= ss.len(),
            ss == statuses_view(statuses@),
            strictly_sorted(addresses_view(keys@)),
            forall|t: Seq<char>| #[trigger]
                addresses_view(keys@).contains(t) <==> exists|j: int|
                    0 <= j < i && (open_only ==> !ss[j].resolved) && #[trigger] key_of(
                        ss[j],
                        by_ripple,
                    ) == t,
        decreases ss.len() - i,
    {
        assert(ss[i as int] == statuses@[i as int]@);
        if !open_only || !statuses[i].resolved {
            insert_sorted(&mut keys, status_key(&statuses[i], by_ripple));
        }
        assert forall|t: Seq<char>| #[trigger]
            addresses_view(keys@).contains(t) <==> exists|j: int|
                0 <= j < i + 1 && (open_only ==> !ss[j].resolved) && #[trigger] key_of(
                    ss[j],
                    by_ripple,
                ) == t by {
            if t == key_of(ss[i as int], by_ripple) && (open_only ==> !ss[i as int].resolved) {
            }
        }
        i = i + 1;
    }
    proof {
        lemma_key_set(addresses_view(keys@), ss, by_ripple, open_only);
    }
    keys
}

/// The other addresses of the open statuses with key `key`, sorted, each once.
fn collect_partners(statuses: &[TideStatus], by_ripple: bool, key: &EntryAddress) -> (r: Vec<EntryAddress>)
    ensures
        addresses_view(r@) == partner_set(statuses_view(statuses@), by_ripple, key@),
{
    let ghost ss = statuses_view(statuses@);
    let mut out: Vec<EntryAddress> = Vec::new();
    assert(addresses_view(out@) =~= Seq::<Seq<char>>::empty());
    let mut i: usize = 0;
    while i < statuses.len()
        invariant
            i <= ss.len(),
            ss == statuses_view(statuses@),
            strictly_sorted(addresses_view(out@)),
            forall|t: Seq<char>| #[trigger]
                addresses_view(out@).contains(t) <==> exists|j: int|
                    0 <= j < i && !ss[j].resolved && key_of(ss[j], by_ripple) == key@
                        && #[trigger] partner_of(ss[j], by_ripple) == t,
        decreases ss.len() - i,
    {
        assert(ss[i as int] == statuses@[i as int]@);
        if !statuses[i].resolved && status_key(&statuses[i], by_ripple).same(key) {
            insert_sorted(&mut out, status_partner(&statuses[i], by_ripple));
        }
        assert forall|t: Seq<char>| #[trigger]
            addresses_view(out@).contains(t) <==> exists|j: int|
                0 <= j < i + 1 && !ss[j].resolved && key_of(ss[j], by_ripple) == key@
                    && #[trigger] partner_of(ss[j], by_ripple) == t by {
            if t == partner_of(ss[i as int], by_ripple) && !ss[i as int].resolved && key_of(ss[i as int], by_ripple) == key@ {
            }
        }
        i = i + 1;
    }
    proof {
        lemma_partner_set(addresses_view(out@), ss, by_ripple, key@);
    }
    out
}

/// Statuses at the given indices.
pub open spec fn pick(ss: Seq<StatusView>, idx: Seq<usize>) -> Seq<StatusView> {
    idx.map_values(|i: usize| ss[i as int])
}

/// Indices of the statuses with key `key`, in order.
fn statuses_with_key(statuses: &[TideStatus], by_ripple: bool, key: &EntryAddress) -> (r: Vec<usize>)
    ensures
        pick(statuses_view(statuses@), r@) == with_key(statuses_view(statuses@), by_ripple, key@),
        forall|k: int| 0 <= k < r@.len() ==> #[trigger] r@[k] < statuses@.len(),
{
    let ghost ss = statuses_view(statuses@);
    let mut out: Vec<usize> = Vec::new();
    let mut i: usize = 0;
    assert(ss.take(0) =~= Seq::<StatusView>::empty());
    assert(pick(ss, out@) =~= Seq::<StatusView>::empty());
    while i < statuses.len()
        invariant
            i <= ss.len(),
            ss == statuses_view(statuses@),
            forall|k: int| 0 <= k < out@.len() ==> #[trigger] out@[k] < i,
            pick(ss, out@) == with_key(ss.take(i as int), by_ripple, key@),
        decreases ss.len() - i,
    {
        assert(ss.take(i + 1).drop_last() =~= ss.take(i as int));
        assert(ss.take(i + 1).last() == ss[i as int]);
        assert(ss[i as int] == statuses@[i as int]@);
        let ghost prev = out@;
        if status_key(&statuses[i], by_ripple).same(key) {
            out.push(i);
            assert(pick(ss, out@) =~= pick(ss, prev).push(ss[i as int]));
        }
        i = i + 1;
    }
    assert(ss.take(i as int) =~= ss);
    out
}

/// Whether `a` comes before `b` in workitem order.
fn status_less(a: &TideStatus, b: &TideStatus) -> (r: bool)
    ensures
        r == workitem_less(a@, b@),
{
    let ripple = a.workitem.ripple.compare(&b.workitem.ripple);
    match ripple {
        crate::address::Order::Less => { return true; },
        crate::address::Order::Greater => {
            proof {
                crate::address::lemma_text_less_asymmetric(a@.ripple, b@.ripple);
            }
            return false;
        },
        crate::address::Order::Equal => {},
    }
    proof {
        crate::address::lemma_text_less_irreflexive(a@.ripple);
    }
    let fa = crate::text::chars_of(a.workitem.field.as_str());
    let fb = crate::text::chars_of(b.workitem.field.as_str());
    match crate::address::compare_texts(fa.as_slice(), fb.as_slice()) {
        crate::address::Order::Less => { return true; },
        crate::address::Order::Greater => {
            proof {
                crate::address::lemma_text_less_asymmetric(a@.field, b@.field);
            }
            return false;
        },
        crate::address::Order::Equal => {},
    }
    proof {
        crate::address::lemma_text_less_irreflexive(a@.field);
    }
    let da = direction_rank_of(a.workitem.direction);
    let db = direction_rank_of(b.workitem.direction);
    if da < db {
        return true;
    }
    if da > db {
        return false;
    }
    assert(a@.direction == b@.direction);
    address_before(&a.workitem.neighbor, &b.workitem.neighbor)
}

/// Whether `x` comes before `y` in text order.
fn address_before(x: &EntryAddress, y: &EntryAddress) -> (r: bool)
    ensures
        r == text_less(x@, y@),
{
    crate::sorted::address_less(x, y)
}

/// Rank of a direction in declaration order.
fn direction_rank_of(d: StructuralEdgeDirection) -> (r: u8)
    ensures
        r == direction_rank(d),
{
    match d {
        StructuralEdgeDirection::To => 0,
        StructuralEdgeDirection::From => 1,
        StructuralEdgeDirection::Clique => 2,
    }
}

proof fn lemma_insert_position(sorted: Seq<StatusView>, x: StatusView)
    ensures
        0 <= insert_position(sorted, x) <= sorted.len(),
        forall|j: int| 0 <= j < insert_position(sorted, x) ==> !workitem_less(x, #[trigger] sorted[j]),
        insert_position(sorted, x) < sorted.len() ==> workitem_less(x, sorted[insert_position(sorted, x)]),
    decreases sorted.len(),
{
    if sorted.len() > 0 && !workitem_less(x, sorted[0]) {
        lemma_insert_position(sorted.drop_first(), x);
        assert forall|j: int| 1 <= j < sorted.len() implies sorted[j] == sorted.drop_first()[j - 1] by {}
    }
}

proof fn lemma_insert_position_at(sorted: Seq<StatusView>, x: StatusView, k: int)
    requires
        0 <= k <= sorted.len(),
        forall|j: int| 0 <= j < k ==> !workitem_less(x, #[trigger] sorted[j]),
        k < sorted.len() ==> workitem_less(x, sorted[k]),
    ensures
        insert_position(sorted, x) == k,
    decreases k,
{
    if k > 0 {
        assert(!workitem_less(x, sorted[0]));
        assert forall|j: int| 0 <= j < k - 1 implies !workitem_less(x, #[trigger] sorted.drop_first()[j]) by {
            assert(sorted.drop_first()[j] == sorted[j + 1]);
        }
        if k < sorted.len() {
            assert(sorted.drop_first()[k - 1] == sorted[k]);
        }
        lemma_insert_position_at(sorted.drop_first(), x, k - 1);
    }
}

/// The indices reordered so that their statuses are sorted by workitem, equal ones kept in
/// their order.
fn sort_by_workitem(statuses: &[TideStatus], idx: &Vec<usize>) -> (r: Vec<usize>)
    requires
        forall|k: int| 0 <= k < idx@.len() ==> #[trigger] idx@[k] < statuses@.len(),
    ensures
        pick(statuses_view(statuses@), r@) == sort_statuses(pick(statuses_view(statuses@), idx@)),
        forall|k: int| 0 <= k < r@.len() ==> #[trigger] r@[k] < statuses@.len(),
{
    let ghost ss = statuses_view(statuses@);
    let ghost src = pick(ss, idx@);
    let mut out: Vec<usize> = Vec::new();
    let mut m: usize = 0;
    assert(src.take(0) =~= Seq::<StatusView>::empty());
    assert(pick(ss, out@) =~= Seq::<StatusView>::empty());
    while m < idx.len()
        invariant
            m <= idx@.len(),
            ss == statuses_view(statuses@),
            src == pick(ss, idx@),
            forall|k: int| 0 <= k < idx@.len() ==> #[trigger] idx@[k] < statuses@.len(),
            forall|k: int| 0 <= k < out@.len() ==> #[trigger] out@[k] < statuses@.len(),
            pick(ss, out@) == sort_statuses(src.take(m as int)),
        decreases idx@.len() - m,
    {
        assert(src.take(m + 1).drop_last() =~= src.take(m as int));
        assert(src.take(m + 1).last() == ss[idx@[m as int] as int]);
        let x = idx[m];
        assert(ss[x as int] == statuses@[x as int]@);
        let ghost sorted = pick(ss, out@);
        let mut k: usize = 0;
        while k < out.len() && !status_less(&statuses[x], &statuses[out[k]])
            invariant
                k <= out@.len(),
                x < statuses@.len(),
                ss == statuses_view(statuses@),
                sorted == pick(ss, out@),
                forall|k2: int| 0 <= k2 < out@.len() ==> #[trigger] out@[k2] < statuses@.len(),
                forall|j: int| 0 <= j < k ==> !workitem_less(ss[x as int], #[trigger] sorted[j]),
            decreases out@.len() - k,
        {
            assert(sorted[k as int] == statuses@[out@[k as int] as int]@);
            k = k + 1;
        }
        proof {
            if k < out@.len() {
                assert(sorted[k as int] == statuses@[out@[k as int] as int]@);
            }
            lemma_insert_position_at(sorted, ss[x as int], k as int);
        }
        out.insert(k, x);
        assert(pick(ss, out@) =~= sorted.insert(k as int, ss[x as int]));
        m = m + 1;
    }
    assert(src.take(m as int) =~= src);
    out
}


/// Cells of a status row after its key cell.
fn status_cells(s: &TideStatus, by_ripple: bool) -> (r: Vec<String>)
    ensures
        strings_view(r@) == if by_ripple {
            wave_cells(s@)
        } else {
            entry_cells(s@)
        },
{
    let mut out: Vec<String> = Vec::new();
    out.push(owned(status_partner(s, by_ripple).as_str()));
    out.push(owned(tide_state_label(s)));
    out.push(owned(s.workitem.field.as_str()));
    out.push(s.workitem.direction.label());
    out.push(tide_sources_label(s));
    assert(strings_view(out@) =~= if by_ripple {
        wave_cells(s@)
    } else {
        entry_cells(s@)
    });
    out
}

/// Single-cell tails holding each address.
fn address_tails(v: &Vec<EntryAddress>) -> (r: Vec<Vec<String>>)
    ensures
        rows_view(r@) == addresses_view(v@).map_values(|a: Seq<char>| seq![a]),
{
    let ghost target = addresses_view(v@).map_values(|a: Seq<char>| seq![a]);
    let mut out: Vec<Vec<String>> = Vec::new();
    let mut i: usize = 0;
    while i < v.len()
        invariant
            i <= v@.len(),
            target == addresses_view(v@).map_values(|a: Seq<char>| seq![a]),
            rows_view(out@) == target.take(i as int),
        decreases v@.len() - i,
    {
        let mut row: Vec<String> = Vec::new();
        row.push(owned(v[i].as_str()));
        assert(strings_view(row@) =~= seq![v@[i as int]@]);
        let ghost prev = out@;
        out.push(row);
        assert(rows_view(out@) =~= rows_view(prev).push(target[i as int]));
        assert(rows_view(out@) =~= target.take(i + 1));
        i = i + 1;
    }
    assert(target.take(i as int) =~= target);
    out
}

/// Status tails for the given status indices.
fn status_tails(statuses: &[TideStatus], idx: &Vec<usize>, by_ripple: bool) -> (r: Vec<Vec<String>>)
    requires
        forall|k: int| 0 <= k < idx@.len() ==> #[trigger] idx@[k] < statuses@.len(),
    ensures
        rows_view(r@) == pick(statuses_view(statuses@), idx@).map_values(
            |s: StatusView|
                if by_ripple {
                    wave_cells(s)
                } else {
                    entry_cells(s)
                },
        ),
{
    let ghost target = pick(statuses_view(statuses@), idx@).map_values(
        |s: StatusView|
            if by_ripple {
                wave_cells(s)
            } else {
                entry_cells(s)
            },
    );
    let mut out: Vec<Vec<String>> = Vec::new();
    let mut i: usize = 0;
    while i < idx.len()
        invariant
            i <= idx@.len(),
            forall|k: int| 0 <= k < idx@.len() ==> #[trigger] idx@[k] < statuses@.len(),
            target == pick(statuses_view(statuses@), idx@).map_values(
                |s: StatusView|
                    if by_ripple {
                        wave_cells(s)
                    } else {
                        entry_cells(s)
                    },
            ),
            rows_view(out@) == target.take(i as int),
        decreases idx@.len() - i,
    {
        let cells = status_cells(&statuses[idx[i]], by_ripple);
        let ghost prev = out@;
        out.push(cells);
        assert(rows_view(out@) =~= rows_view(prev).push(target[i as int]));
        assert(rows_view(out@) =~= target.take(i + 1));
        i = i + 1;
    }
    assert(target.take(i as int) =~= target);
    out
}

/// The tails of the rows of one group.
fn tails_of(statuses: &[TideStatus], kind: TideGrouping, key: &EntryAddress) -> (r: Vec<Vec<String>>)
    ensures
        rows_view(r@) == tails_for(kind, statuses_view(statuses@), key@),
{
    let ghost ss = statuses_view(statuses@);
    match kind {
        TideGrouping::ReviewWaves => address_tails(&collect_partners(statuses, true, key)),
        TideGrouping::ReviewEntries => address_tails(&collect_partners(statuses, false, key)),
        TideGrouping::StatusWaves => {
            let idx = statuses_with_key(statuses, true, key);
            let r = status_tails(statuses, &idx, true);
            assert(rows_view(r@) =~= tails_for(kind, ss, key@));
            r
        },
        TideGrouping::StatusEntries => {
            let idx = statuses_with_key(statuses, false, key);
            let sorted = sort_by_workitem(statuses, &idx);
            let r = status_tails(statuses, &sorted, false);
            assert(rows_view(r@) =~= tails_for(kind, ss, key@));
            r
        },
    }
}

/// Append the rows of one group.
fn push_group(rows: &mut Vec<TideGroupedTableRow>, key: &EntryAddress, tails: Vec<Vec<String>>)
    ensures
        grouped_rows_view(final(rows)@) == grouped_rows_view(old(rows)@) + group_rows(
            key@,
            rows_view(tails@),
        ),
{
    let ghost base = grouped_rows_view(rows@);
    let ghost g = group_rows(key@, rows_view(tails@));
    let mut j: usize = 0;
    assert(g.take(0) =~= Seq::<RowView>::empty());
    assert(base + g.take(0) =~= base);
    while j < tails.len()
        invariant
            j <= tails@.len(),
            g == group_rows(key@, rows_view(tails@)),
            grouped_rows_view(rows@) == base + g.take(j as int),
        decreases tails@.len() - j,
    {
        let mut cells: Vec<String> = Vec::new();
        if j == 0 {
            cells.push(owned(key.as_str()));
        } else {
            cells.push(String::new());
        }
        let mut k: usize = 0;
        while k < tails[j].len()
            invariant
                j < tails@.len(),
                k <= tails@[j as int]@.len(),
                strings_view(cells@) == seq![
                    if j == 0 {
                        key@
                    } else {
                        Seq::<char>::empty()
                    },
                ] + strings_view(tails@[j as int]@).take(k as int),
            decreases tails@[j as int]@.len() - k,
        {
            let ghost prev = cells@;
            cells.push(owned(tails[j][k].as_str()));
            assert(strings_view(cells@) =~= strings_view(prev).push(tails@[j as int]@[k as int]@));
            assert(strings_view(cells@) =~= seq![
                if j == 0 {
                    key@
                } else {
                    Seq::<char>::empty()
                },
            ] + strings_view(tails@[j as int]@).take(k + 1));
            k = k + 1;
        }
        assert(strings_view(tails@[j as int]@).take(k as int) =~= strings_view(tails@[j as int]@));
        let ghost prev = rows@;
        rows.push(TideGroupedTableRow { cells, starts_group: j == 0 });
        assert(grouped_rows_view(rows@) =~= grouped_rows_view(prev).push(g[j as int]));
        assert(grouped_rows_view(rows@) =~= base + g.take(j + 1));
        j = j + 1;
    }
    assert(g.take(j as int) =~= g);
}

/// The grouped rows of the statuses, groups in key order.
fn grouped_rows(statuses: &[TideStatus], kind: TideGrouping, keys: &Vec<EntryAddress>) -> (r: Vec<TideGroupedTableRow>)
    ensures
        grouped_rows_view(r@) == keyed_rows(kind, statuses_view(statuses@), addresses_view(keys@)),
{
    let ghost ss = statuses_view(statuses@);
    let ghost ks = addresses_view(keys@);
    let mut rows: Vec<TideGroupedTableRow> = Vec::new();
    let mut i: usize = 0;
    assert(ks.take(0) =~= Seq::<Seq<char>>::empty());
    assert(grouped_rows_view(rows@) =~= Seq::<RowView>::empty());
    while i < keys.len()
        invariant
            i <= ks.len(),
            ss == statuses_view(statuses@),
            ks == addresses_view(keys@),
            grouped_rows_view(rows@) == keyed_rows(kind, ss, ks.take(i as int)),
        decreases ks.len() - i,
    {
        assert(ks.take(i + 1).drop_last() =~= ks.take(i as int));
        assert(ks.take(i + 1).last() == keys@[i as int]@);
        let tails = tails_of(statuses, kind, &keys[i]);
        push_group(&mut rows, &keys[i], tails);
        i = i + 1;
    }
    assert(ks.take(i as int) =~= ks);
    rows
}

/// Number of open statuses.
fn count_open(statuses: &[TideStatus]) -> (r: usize)
    ensures
        r == open_count(statuses_view(statuses@)),
{
    let ghost ss = statuses_view(statuses@);
    let mut n: usize = 0;
    let mut i: usize = 0;
    assert(ss.take(0) =~= Seq::<StatusView>::empty());
    while i < statuses.len()
        invariant
            i <= ss.len(),
            ss == statuses_view(statuses@),
            n == open_count(ss.take(i as int)),
            n <= i,
        decreases ss.len() - i,
    {
        assert(ss.take(i + 1).drop_last() =~= ss.take(i as int));
        assert(ss.take(i + 1).last() == statuses@[i as int]@);
        if !statuses[i].resolved {
            n = n + 1;
        }
        i = i + 1;
    }
    assert(ss.take(i as int) =~= ss);
    n
}

proof fn lemma_open_count_bound(ss: Seq<StatusView>)
    ensures
        open_count(ss) <= ss.len(),
    decreases ss.len(),
{
    if ss.len() > 0 {
        lemma_open_count_bound(ss.drop_last());
    }
}

/// Output of a tide with no group.
pub open spec fn clear_text() -> Seq<char> {
    "tide: clear\n"@
}

/// Column headers of a grouping.
pub open spec fn headers_for(kind: TideGrouping) -> Seq<Seq<char>> {
    match kind {
        TideGrouping::ReviewWaves => seq!["wave"@, "entry"@],
        TideGrouping::ReviewEntries => seq!["entry"@, "reason"@],
        TideGrouping::StatusWaves => seq!["wave"@, "entry"@, "state"@, "field"@, "direction"@, "sources"@],
        TideGrouping::StatusEntries => seq!["entry"@, "reason"@, "state"@, "field"@, "direction"@, "sources"@],
    }
}

/// Whether a grouping shows resolved statuses too.
pub open spec fn shows_resolved(kind: TideGrouping) -> bool {
    kind == TideGrouping::StatusWaves || kind == TideGrouping::StatusEntries
}

/// Human output of a tide under a grouping at a table width: one table, a blank line, and
/// the summary sentence; or the clear line when there is no group.
pub open spec fn tide_text(kind: TideGrouping, ss: Seq<StatusView>, width: Option<u16>) -> Seq<char> {
    let keys = keys_for(kind, ss);
    if keys.len() == 0 {
        clear_text()
    } else {
        let open = open_count(ss);
        let resolved = if shows_resolved(kind) {
            (ss.len() - open) as nat
        } else {
            0nat
        };
        let waves = if shows_resolved(kind) {
            key_set(ss, true, false).len()
        } else {
            key_set(ss, true, true).len()
        };
        grouped_table(headers_for(kind), keyed_rows(kind, ss, keys), width) + "\n"@
            + summary_sentence(open, resolved, waves, key_set(ss, false, true).len()) + "\n"@
    }
}

/// Column headers of a grouping.
fn headers_of(kind: TideGrouping) -> (r: Vec<String>)
    ensures
        strings_view(r@) == headers_for(kind),
{
    let mut h: Vec<String> = Vec::new();
    match kind {
        TideGrouping::ReviewWaves => {
            h.push(owned("wave"));
            h.push(owned("entry"));
        },
        TideGrouping::ReviewEntries => {
            h.push(owned("entry"));
            h.push(owned("reason"));
        },
        TideGrouping::StatusWaves => {
            h.push(owned("wave"));
            h.push(owned("entry"));
            h.push(owned("state"));
            h.push(owned("field"));
            h.push(owned("direction"));
            h.push(owned("sources"));
        },
        TideGrouping::StatusEntries => {
            h.push(owned("entry"));
            h.push(owned("reason"));
            h.push(owned("state"));
            h.push(owned("field"));
            h.push(owned("direction"));
            h.push(owned("sources"));
        },
    }
    assert(strings_view(h@) =~= headers_for(kind));
    h
}

/// Human output of a tide under a grouping at a table width.
pub fn format_tide_at_width(statuses: &[TideStatus], kind: TideGrouping, width: Option<u16>) -> (r: String)
    ensures
        r@ == tide_text(kind, statuses_view(statuses@), width),
{
    let ghost ss = statuses_view(statuses@);
    let keys = match kind {
        TideGrouping::ReviewWaves => collect_keys(statuses, true, true),
        TideGrouping::ReviewEntries => collect_keys(statuses, false, true),
        TideGrouping::StatusWaves => collect_keys(statuses, true, false),
        TideGrouping::StatusEntries => collect_keys(statuses, false, false),
    };
    if keys.len() == 0 {
        return owned("tide: clear\n");
    }
    let open = count_open(statuses);
    proof {
        lemma_open_count_bound(ss);
    }
    let show_resolved = match kind {
        TideGrouping::StatusWaves => true,
        TideGrouping::StatusEntries => true,
        _ => false,
    };
    let resolved = if show_resolved {
        statuses.len() - open
    } else {
        0
    };
    let waves = collect_keys(statuses, true, !show_resolved);
    let entries = collect_keys(statuses, false, true);
    let rows = grouped_rows(statuses, kind, &keys);
    let mut out = format_tide_grouped_table(headers_of(kind), rows, width);
    push_str(&mut out, "\n");
    let sentence = tide_summary_sentence(open, resolved, waves.len(), entries.len());
    push_str(&mut out, sentence.as_str());
    push_str(&mut out, "\n");
    out
}

/// Human output of a tide under a grouping at the terminal width.
pub fn format_tide(statuses: &[TideStatus], kind: TideGrouping) -> (r: String)
    ensures
        exists|w: Option<u16>| r@ == tide_text(kind, statuses_view(statuses@), w),
{
    let w = crate::table::terminal_width();
    format_tide_at_width(statuses, kind, w)
}

/// Open review entries grouped by wave, at the terminal width.
pub fn format_tide_review_waves(statuses: &[TideStatus]) -> (r: String)
    ensures
        exists|w: Option<u16>| r@ == tide_text(TideGrouping::ReviewWaves, statuses_view(statuses@), w),
{
    format_tide(statuses, TideGrouping::ReviewWaves)
}

/// Open waves grouped by review entry, at the terminal width.
pub fn format_tide_review_entries(statuses: &[TideStatus]) -> (r: String)
    ensures
        exists|w: Option<u16>| r@ == tide_text(TideGrouping::ReviewEntries, statuses_view(statuses@), w),
{
    format_tide(statuses, TideGrouping::ReviewEntries)
}

/// All statuses grouped by wave, at the terminal width.
pub fn format_tide_statuses(statuses: &[TideStatus]) -> (r: String)
    ensures
        exists|w: Option<u16>| r@ == tide_text(TideGrouping::StatusWaves, statuses_view(statuses@), w),
{
    format_tide(statuses, TideGrouping::StatusWaves)
}

/// All statuses grouped by review entry, at the terminal width.
pub fn format_tide_statuses_by_entry(statuses: &[TideStatus]) -> (r: String)
    ensures
        exists|w: Option<u16>| r@ == tide_text(TideGrouping::StatusEntries, statuses_view(statuses@), w),
{
    format_tide(statuses, TideGrouping::StatusEntries)
}

/// The open review entries, sorted, each once.
pub fn tide_review_entries_from_statuses(statuses: &[TideStatus]) -> (r: Vec<EntryAddress>)
    ensures
        addresses_view(r@) == key_set(statuses_view(statuses@), false, true),
{
    collect_keys(statuses, false, true)
}

} // verus!
