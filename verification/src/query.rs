//! Query options: output columns, structural filters and output formats.

use vstd::prelude::*;

use crate::address::{EntryAddress, EntryAddressError, address_check};
use crate::artifact::{lemma_split_join};
use crate::text::{chars_of, has_char, join_with, owned, split_on, split_slice, string_from, trim, trim_slice, slice_eq, strings_view};

verus! {

/// Human-or-JSON output renderer.
#[derive(Clone, Copy, Debug, PartialEq, Eq, Structural)]
pub enum StructuredOutputFormat {
    /// JSON for machine-oriented callers.
    Json,
    /// Terminal-oriented human text.
    Human,
}

impl Default for StructuredOutputFormat {
    fn default() -> (r: Self)
        ensures
            r == StructuredOutputFormat::Human,
    {
        StructuredOutputFormat::Human
    }
}

/// Output renderer of query results.
pub type QueryOutputFormat = StructuredOutputFormat;

/// Output renderer of tide statuses.
pub type TideOutputFormat = StructuredOutputFormat;

/// Output renderer of path lookups.
#[derive(Clone, Copy, Debug, PartialEq, Eq, Structural)]
pub enum PathOutputFormat {
    /// A JSON array of path records.
    Json,
    /// A Unicode table.
    Human,
    /// Only paths, one per line.
    Paths,
}

impl Default for PathOutputFormat {
    fn default() -> (r: Self)
        ensures
            r == PathOutputFormat::Human,
    {
        PathOutputFormat::Human
    }
}

/// One column printable by a query.
#[derive(Clone, Copy, Debug, PartialEq, Eq, Structural)]
pub enum QueryColumn {
    /// Entry address.
    Id,
    /// Human-readable entry name.
    Name,
    /// Markdown path.
    Path,
    /// Short entry description.
    Desc,
}

/// Stable output field name of a column.
pub open spec fn column_label(c: QueryColumn) -> Seq<char> {
    match c {
        QueryColumn::Id => seq!['i', 'd'],
        QueryColumn::Name => seq!['n', 'a', 'm', 'e'],
        QueryColumn::Path => seq!['p', 'a', 't', 'h'],
        QueryColumn::Desc => seq!['d', 'e', 's', 'c'],
    }
}

/// The column named `raw`, if any.
pub open spec fn column_named(raw: Seq<char>) -> Option<QueryColumn> {
    if raw == column_label(QueryColumn::Id) {
        Some(QueryColumn::Id)
    } else if raw == column_label(QueryColumn::Name) {
        Some(QueryColumn::Name)
    } else if raw == column_label(QueryColumn::Path) {
        Some(QueryColumn::Path)
    } else if raw == column_label(QueryColumn::Desc) {
        Some(QueryColumn::Desc)
    } else {
        None
    }
}

/// Error raised while parsing one column list.
#[derive(Clone, Debug, PartialEq, Eq)]
pub enum QueryColumnsParseError {
    /// The list holds no column.
    Empty,
    /// The list holds a separator without a column.
    EmptyColumn,
    /// The list names an unknown column.
    UnknownColumn(String),
}

/// Spec view of a column-list parse error.
pub enum ColumnsErrorView {
    Empty,
    EmptyColumn,
    UnknownColumn(Seq<char>),
}

impl View for QueryColumnsParseError {
    type V = ColumnsErrorView;

    open spec fn view(&self) -> ColumnsErrorView {
        match self {
            QueryColumnsParseError::Empty => ColumnsErrorView::Empty,
            QueryColumnsParseError::EmptyColumn => ColumnsErrorView::EmptyColumn,
            QueryColumnsParseError::UnknownColumn(s) => ColumnsErrorView::UnknownColumn(s@),
        }
    }
}

/// Parse one trimmed column piece.
pub open spec fn parse_column_piece(piece: Seq<char>) -> Result<QueryColumn, ColumnsErrorView> {
    let t = trim(piece);
    if t.len() == 0 {
        Err(ColumnsErrorView::EmptyColumn)
    } else {
        match column_named(t) {
            Some(c) => Ok(c),
            None => Err(ColumnsErrorView::UnknownColumn(t)),
        }
    }
}

/// Parse the pieces in order; the first bad piece decides the error.
pub open spec fn parse_column_pieces(ps: Seq<Seq<char>>) -> Result<Seq<QueryColumn>, ColumnsErrorView>
    decreases ps.len(),
{
    if ps.len() == 0 {
        Ok(Seq::empty())
    } else {
        match parse_column_pieces(ps.drop_last()) {
            Err(e) => Err(e),
            Ok(cs) => match parse_column_piece(ps.last()) {
                Err(e) => Err(e),
                Ok(c) => Ok(cs.push(c)),
            },
        }
    }
}

/// The outcome of parsing a comma-separated column list.
pub open spec fn parse_columns_spec(raw: Seq<char>) -> Result<Seq<QueryColumn>, ColumnsErrorView> {
    if trim(raw).len() == 0 {
        Err(ColumnsErrorView::Empty)
    } else {
        parse_column_pieces(split_on(raw, ','))
    }
}

impl QueryColumn {
    /// Stable output field name of this column.
    pub fn label(self) -> (r: &'static str)
        ensures
            r@ == column_label(self),
    {
        proof {
            reveal_strlit("id");
            reveal_strlit("name");
            reveal_strlit("path");
            reveal_strlit("desc");
        }
        match self {
            QueryColumn::Id => "id",
            QueryColumn::Name => "name",
            QueryColumn::Path => "path",
            QueryColumn::Desc => "desc",
        }
    }

    /// The column named `raw`.
    pub fn from_str(raw: &str) -> (r: Result<Self, QueryColumnsParseError>)
        ensures
            match column_named(raw@) {
                Some(c) => r == Ok::<QueryColumn, QueryColumnsParseError>(c),
                None => r matches Err(QueryColumnsParseError::UnknownColumn(s)) && s@ == raw@,
            },
    {
        let chars = chars_of(raw);
        let columns = [QueryColumn::Id, QueryColumn::Name, QueryColumn::Path, QueryColumn::Desc];
        let mut i: usize = 0;
        while i < 4
            invariant
                i <= 4,
                chars@ == raw@,
                columns@ == seq![QueryColumn::Id, QueryColumn::Name, QueryColumn::Path, QueryColumn::Desc],
                forall|k: int| 0 <= k < i ==> column_label(#[trigger] columns@[k]) != raw@,
            decreases 4 - i,
        {
            let label = chars_of(columns[i].label());
            if slice_eq(label.as_slice(), chars.as_slice()) {
                return Ok(columns[i]);
            }
            i = i + 1;
        }
        assert(column_label(columns@[0]) != raw@);
        assert(column_label(columns@[1]) != raw@);
        assert(column_label(columns@[2]) != raw@);
        assert(column_label(columns@[3]) != raw@);
        Err(QueryColumnsParseError::UnknownColumn(owned(raw)))
    }
}

/// Output column list of a query.
#[derive(Debug)]
pub struct QueryColumns {
    columns: Vec<QueryColumn>,
}

impl View for QueryColumns {
    type V = Seq<QueryColumn>;

    closed spec fn view(&self) -> Seq<QueryColumn> {
        self.columns@
    }
}

impl QueryColumns {
    /// A column list from explicit columns.
    pub fn new(columns: Vec<QueryColumn>) -> (r: Self)
        ensures
            r@ == columns@,
    {
        QueryColumns { columns }
    }

    /// The selected columns in display order.
    pub fn columns(&self) -> (r: &[QueryColumn])
        ensures
            r@ == self@,
    {
        self.columns.as_slice()
    }

    /// Stable output field labels in display order.
    pub fn labels(&self) -> (r: Vec<String>)
        ensures
            strings_view(r@) == self@.map_values(|c: QueryColumn| column_label(c)),
    {
        let mut out: Vec<String> = Vec::new();
        let mut i: usize = 0;
        while i < self.columns.len()
            invariant
                i <= self@.len(),
                strings_view(out@) == self@.map_values(|c: QueryColumn| column_label(c)).take(
                    i as int,
                ),
            decreases self@.len() - i,
        {
            let ghost prev = out@;
            out.push(owned(self.columns[i].label()));
            assert(strings_view(out@) =~= strings_view(prev).push(column_label(self@[i as int])));
            assert(strings_view(out@) =~= self@.map_values(|c: QueryColumn| column_label(c)).take(
                i + 1,
            ));
            i = i + 1;
        }
        assert(self@.map_values(|c: QueryColumn| column_label(c)).take(i as int) =~= self@.map_values(
            |c: QueryColumn| column_label(c),
        ));
        out
    }

    /// Parse a comma-separated column list; pieces are trimmed.
    pub fn from_str(raw: &str) -> (r: Result<Self, QueryColumnsParseError>)
        ensures
            match parse_columns_spec(raw@) {
                Ok(cs) => r matches Ok(q) && q@ == cs,
                Err(e) => r matches Err(x) && x@ == e,
            },
    {
        let chars = chars_of(raw);
        if trim_slice(chars.as_slice()).len() == 0 {
            return Err(QueryColumnsParseError::Empty);
        }
        let parts = split_slice(chars.as_slice(), ',');
        let ghost ps = split_on(raw@, ',');
        let mut columns: Vec<QueryColumn> = Vec::new();
        let mut i: usize = 0;
        assert(ps.take(0) =~= Seq::<Seq<char>>::empty());
        while i < parts.len()
            invariant
                i <= ps.len(),
                ps == split_on(raw@, ','),
                trim(raw@).len() != 0,
                parts@.map_values(|p: Vec<char>| p@) == ps,
                parse_column_pieces(ps.take(i as int)) == Ok::<
                    Seq<QueryColumn>,
                    ColumnsErrorView,
                >(columns@),
            decreases ps.len() - i,
        {
            assert(ps.take(i + 1).drop_last() =~= ps.take(i as int));
            assert(ps.take(i + 1).last() == parts@[i as int]@);
            let piece = trim_slice(parts[i].as_slice());
            if piece.len() == 0 {
                proof {
                    lemma_pieces_error_persists(ps, i + 1);
                }
                return Err(QueryColumnsParseError::EmptyColumn);
            }
            let text = string_from(piece.as_slice());
            match QueryColumn::from_str(text.as_str()) {
                Ok(c) => columns.push(c),
                Err(e) => {
                    proof {
                        lemma_pieces_error_persists(ps, i + 1);
                    }
                    return Err(e);
                },
            }
            i = i + 1;
        }
        assert(ps.take(i as int) =~= ps);
        Ok(QueryColumns { columns })
    }
}

impl Default for QueryColumns {
    fn default() -> (r: Self)
        ensures
            r@ == seq![QueryColumn::Id, QueryColumn::Path, QueryColumn::Name],
    {
        let mut columns: Vec<QueryColumn> = Vec::new();
        columns.push(QueryColumn::Id);
        columns.push(QueryColumn::Path);
        columns.push(QueryColumn::Name);
        assert(columns@ =~= seq![QueryColumn::Id, QueryColumn::Path, QueryColumn::Name]);
        QueryColumns { columns }
    }
}

/// Once a prefix of the pieces fails, the whole list fails with the same error.
proof fn lemma_pieces_error_persists(ps: Seq<Seq<char>>, k: int)
    requires
        0 <= k <= ps.len(),
        parse_column_pieces(ps.take(k)) is Err,
    ensures
        parse_column_pieces(ps) == parse_column_pieces(ps.take(k)),
    decreases ps.len() - k,
{
    if k < ps.len() {
        assert(ps.take(k + 1).drop_last() =~= ps.take(k));
        lemma_pieces_error_persists(ps, k + 1);
    } else {
        assert(ps.take(k) =~= ps);
    }
}

/// A column label never holds a comma and is its own trimmed form.
proof fn lemma_label_plain(c: QueryColumn)
    ensures
        !has_char(column_label(c), ','),
        trim(column_label(c)) == column_label(c),
        column_named(column_label(c)) == Some(c),
{
    let l = column_label(c);
    assert(!crate::text::is_space(l[0]));
    assert(!crate::text::is_space(l.last()));
    assert(trim(l) == l) by {
        reveal_with_fuel(crate::text::trim_start, 2);
        reveal_with_fuel(crate::text::trim_end, 2);
    }
}

/// Parsing the labels of a non-empty column list, joined with commas, gives the list back.
pub proof fn law_column_labels_round_trip(cs: Seq<QueryColumn>)
    requires
        cs.len() > 0,
    ensures
        parse_columns_spec(join_with(cs.map_values(|c: QueryColumn| column_label(c)), seq![',']))
            == Ok::<Seq<QueryColumn>, ColumnsErrorView>(cs),
{
    let ls = cs.map_values(|c: QueryColumn| column_label(c));
    assert forall|i: int| 0 <= i < ls.len() implies !has_char(#[trigger] ls[i], ',') by {
        lemma_label_plain(cs[i]);
    }
    lemma_split_join(ls, ',');
    lemma_pieces_of_labels(cs);
    let joined = join_with(ls, seq![',']);
    assert(trim(joined).len() != 0) by {
        lemma_label_plain(cs[0]);
        lemma_join_nonblank(ls);
    }
}

proof fn lemma_pieces_of_labels(cs: Seq<QueryColumn>)
    ensures
        parse_column_pieces(cs.map_values(|c: QueryColumn| column_label(c))) == Ok::<
            Seq<QueryColumn>,
            ColumnsErrorView,
        >(cs),
    decreases cs.len(),
{
    let ls = cs.map_values(|c: QueryColumn| column_label(c));
    if cs.len() > 0 {
        assert(ls.drop_last() =~= cs.drop_last().map_values(|c: QueryColumn| column_label(c)));
        lemma_pieces_of_labels(cs.drop_last());
        lemma_label_plain(cs.last());
        assert(ls.last() == column_label(cs.last()));
        assert(cs.drop_last().push(cs.last()) =~= cs);
    } else {
        assert(cs =~= Seq::<QueryColumn>::empty());
    }
}

/// Joining labels never gives blank text.
proof fn lemma_join_nonblank(ls: Seq<Seq<char>>)
    requires
        ls.len() > 0,
        forall|i: int| 0 <= i < ls.len() ==> (#[trigger] ls[i]).len() > 0 && !crate::text::is_space(ls[i][0]),
    ensures
        trim(join_with(ls, seq![','])).len() > 0,
    decreases ls.len(),
{
    let j = join_with(ls, seq![',']);
    lemma_join_first_char(ls);
    crate::text::lemma_trim_keeps_first(j);
}

proof fn lemma_join_first_char(ls: Seq<Seq<char>>)
    requires
        ls.len() > 0,
        ls[0].len() > 0,
    ensures
        join_with(ls, seq![',']).len() > 0,
        join_with(ls, seq![','])[0] == ls[0][0],
    decreases ls.len(),
{
    if ls.len() > 1 {
        assert(ls.drop_last()[0] == ls[0]);
        lemma_join_first_char(ls.drop_last());
    }
}


/// Index of the first `c` in `s`, or -1.
pub open spec fn first_index(s: Seq<char>, c: char) -> int
    decreases s.len(),
{
    if s.len() == 0 {
        -1
    } else if s[0] == c {
        0
    } else {
        let r = first_index(s.drop_first(), c);
        if r < 0 {
            -1
        } else {
            r + 1
        }
    }
}

pub proof fn lemma_first_index(s: Seq<char>, c: char)
    ensures
        -1 <= first_index(s, c) < s.len(),
        first_index(s, c) >= 0 ==> s[first_index(s, c)] == c,
        forall|j: int| 0 <= j < first_index(s, c) ==> s[j] != c,
        first_index(s, c) == -1 ==> forall|j: int| 0 <= j < s.len() ==> s[j] != c,
    decreases s.len(),
{
    if s.len() > 0 && s[0] != c {
        lemma_first_index(s.drop_first(), c);
        assert forall|j: int| 1 <= j < s.len() implies s[j] == s.drop_first()[j - 1] by {}
    }
}

/// Index of the first `c` among the characters, if any.
pub fn find_char(s: &[char], c: char) -> (r: Option<usize>)
    ensures
        match r {
            Some(i) => i == first_index(s@, c),
            None => first_index(s@, c) == -1,
        },
{
    proof {
        lemma_first_index(s@, c);
    }
    let mut i: usize = 0;
    while i < s.len()
        invariant
            i <= s@.len(),
            forall|j: int| 0 <= j < i ==> s@[j] != c,
            -1 <= first_index(s@, c) < s@.len(),
            first_index(s@, c) >= 0 ==> s@[first_index(s@, c)] == c,
            forall|j: int| 0 <= j < first_index(s@, c) ==> s@[j] != c,
            first_index(s@, c) == -1 ==> forall|j: int| 0 <= j < s@.len() ==> s@[j] != c,
        decreases s@.len() - i,
    {
        if s[i] == c {
            return Some(i);
        }
        i = i + 1;
    }
    None
}

/// Error raised while parsing one structural filter.
#[derive(Clone, Debug, PartialEq, Eq)]
pub enum StructuralFilterParseError {
    /// The argument holds no field-target separator.
    MissingEquals,
    /// The field name is empty.
    EmptyField,
    /// The target list holds a separator without a target.
    EmptyTarget,
    /// A target is not an entry address.
    EntryId(EntryAddressError),
}

/// Parse the targets in order; the first bad piece decides the error.
pub open spec fn filter_targets_spec(ps: Seq<Seq<char>>) -> Result<Seq<Seq<char>>, StructuralFilterParseError>
    decreases ps.len(),
{
    if ps.len() == 0 {
        Ok(Seq::empty())
    } else {
        match filter_targets_spec(ps.drop_last()) {
            Err(e) => Err(e),
            Ok(ts) => {
                let t = trim(ps.last());
                if t.len() == 0 {
                    Err(StructuralFilterParseError::EmptyTarget)
                } else {
                    match address_check(t) {
                        Err(e) => Err(StructuralFilterParseError::EntryId(e)),
                        Ok(()) => Ok(ts.push(t)),
                    }
                }
            },
        }
    }
}

proof fn lemma_targets_error_persists(ps: Seq<Seq<char>>, k: int)
    requires
        0 <= k <= ps.len(),
        filter_targets_spec(ps.take(k)) is Err,
    ensures
        filter_targets_spec(ps) == filter_targets_spec(ps.take(k)),
    decreases ps.len() - k,
{
    if k < ps.len() {
        assert(ps.take(k + 1).drop_last() =~= ps.take(k));
        lemma_targets_error_persists(ps, k + 1);
    } else {
        assert(ps.take(k) =~= ps);
    }
}

/// Parse a comma-separated list of target addresses; pieces are trimmed.
pub fn parse_structural_filter_targets(raw: &str) -> (r: Result<Vec<EntryAddress>, StructuralFilterParseError>)
    ensures
        match filter_targets_spec(split_on(raw@, ',')) {
            Ok(ts) => r matches Ok(v) && crate::entry::addresses_view(v@) == ts,
            Err(e) => r == Err::<Vec<EntryAddress>, StructuralFilterParseError>(e),
        },
{
    let chars = chars_of(raw);
    let parts = split_slice(chars.as_slice(), ',');
    let ghost ps = split_on(raw@, ',');
    let mut targets: Vec<EntryAddress> = Vec::new();
    let mut i: usize = 0;
    assert(ps.take(0) =~= Seq::<Seq<char>>::empty());
    assert(crate::entry::addresses_view(targets@) =~= Seq::<Seq<char>>::empty());
    while i < parts.len()
        invariant
            i <= ps.len(),
            ps == split_on(raw@, ','),
            parts@.map_values(|p: Vec<char>| p@) == ps,
            filter_targets_spec(ps.take(i as int)) == Ok::<
                Seq<Seq<char>>,
                StructuralFilterParseError,
            >(crate::entry::addresses_view(targets@)),
        decreases ps.len() - i,
    {
        assert(ps.take(i + 1).drop_last() =~= ps.take(i as int));
        assert(ps.take(i + 1).last() == parts@[i as int]@);
        let piece = trim_slice(parts[i].as_slice());
        if piece.len() == 0 {
            proof {
                lemma_targets_error_persists(ps, i + 1);
            }
            return Err(StructuralFilterParseError::EmptyTarget);
        }
        let text = string_from(piece.as_slice());
        match EntryAddress::new(text.as_str()) {
            Ok(a) => {
                let ghost prev = targets@;
                targets.push(a);
                assert(crate::entry::addresses_view(targets@) =~= crate::entry::addresses_view(
                    prev,
                ).push(piece@));
            },
            Err(e) => {
                proof {
                    lemma_targets_error_persists(ps, i + 1);
                }
                return Err(StructuralFilterParseError::EntryId(e));
            },
        }
        i = i + 1;
    }
    assert(ps.take(i as int) =~= ps);
    Ok(targets)
}

/// Structural query filter parsed from `FIELD=ENTRY_ID[,ENTRY_ID]`.
#[derive(Debug)]
pub struct StructuralFilter {
    /// Structural field name.
    pub field: String,
    /// Accepted target addresses for this field.
    pub targets: Vec<EntryAddress>,
}

/// The outcome of parsing a structural filter: the trimmed field and the targets.
pub open spec fn structural_filter_spec(raw: Seq<char>) -> Result<(Seq<char>, Seq<Seq<char>>), StructuralFilterParseError> {
    let k = first_index(raw, '=');
    if k < 0 {
        Err(StructuralFilterParseError::MissingEquals)
    } else {
        let field = trim(raw.subrange(0, k));
        if field.len() == 0 {
            Err(StructuralFilterParseError::EmptyField)
        } else {
            match filter_targets_spec(split_on(raw.subrange(k + 1, raw.len() as int), ',')) {
                Err(e) => Err(e),
                Ok(ts) => Ok((field, ts)),
            }
        }
    }
}

impl StructuralFilter {
    /// Parse `FIELD=ENTRY_ID[,ENTRY_ID]`, splitting at the first `=`.
    pub fn from_str(raw: &str) -> (r: Result<Self, StructuralFilterParseError>)
        ensures
            match structural_filter_spec(raw@) {
                Ok(v) => r matches Ok(f) && f.field@ == v.0 && crate::entry::addresses_view(
                    f.targets@,
                ) == v.1,
                Err(e) => r matches Err(x) && x == e,
            },
    {
        let chars = chars_of(raw);
        let k = match find_char(chars.as_slice(), '=') {
            Some(k) => k,
            None => {
                return Err(StructuralFilterParseError::MissingEquals);
            },
        };
        proof {
            lemma_first_index(raw@, '=');
        }
        let field_chars = crate::text::slice_range(chars.as_slice(), 0, k);
        let field = trim_slice(field_chars.as_slice());
        if field.len() == 0 {
            return Err(StructuralFilterParseError::EmptyField);
        }
        let n = chars.len();
        let rest = crate::text::slice_range(chars.as_slice(), k + 1, n);
        let rest_text = string_from(rest.as_slice());
        match parse_structural_filter_targets(rest_text.as_str()) {
            Ok(targets) => Ok(StructuralFilter { field: string_from(field.as_slice()), targets }),
            Err(e) => Err(e),
        }
    }
}

/// Structural field state matched by a query.
#[derive(Clone, Copy, Debug, PartialEq, Eq, Structural)]
pub enum StructuralFieldState {
    /// The field is present with any target count.
    Present,
    /// The field is present with no targets.
    Empty,
    /// The field is absent.
    Missing,
}

/// Error raised while parsing one structural state filter.
#[derive(Clone, Debug, PartialEq, Eq)]
pub enum StructuralStateFilterParseError {
    /// The argument holds no field-state separator.
    MissingEquals,
    /// The field name is empty.
    EmptyField,
    /// The state is not recognized.
    UnknownState(String),
}

/// Name of a field state.
pub open spec fn state_label(s: StructuralFieldState) -> Seq<char> {
    match s {
        StructuralFieldState::Present => seq!['p', 'r', 'e', 's', 'e', 'n', 't'],
        StructuralFieldState::Empty => seq!['e', 'm', 'p', 't', 'y'],
        StructuralFieldState::Missing => seq!['m', 'i', 's', 's', 'i', 'n', 'g'],
    }
}

impl StructuralFieldState {
    /// Name of this state.
    pub fn label(self) -> (r: &'static str)
        ensures
            r@ == state_label(self),
    {
        proof {
            reveal_strlit("present");
            reveal_strlit("empty");
            reveal_strlit("missing");
        }
        match self {
            StructuralFieldState::Present => "present",
            StructuralFieldState::Empty => "empty",
            StructuralFieldState::Missing => "missing",
        }
    }

    /// The state named `raw`.
    pub fn from_str(raw: &str) -> (r: Result<Self, StructuralStateFilterParseError>)
        ensures
            forall|s: StructuralFieldState| state_label(s) == raw@ ==> r == Ok::<StructuralFieldState, StructuralStateFilterParseError>(s),
            (forall|s: StructuralFieldState| state_label(s) != raw@) ==> (r matches Err(StructuralStateFilterParseError::UnknownState(t)) && t@ == raw@),
    {
        let chars = chars_of(raw);
        let states = [StructuralFieldState::Present, StructuralFieldState::Empty, StructuralFieldState::Missing];
        let mut i: usize = 0;
        while i < 3
            invariant
                i <= 3,
                chars@ == raw@,
                states@ == seq![StructuralFieldState::Present, StructuralFieldState::Empty, StructuralFieldState::Missing],
                forall|k: int| 0 <= k < i ==> state_label(#[trigger] states@[k]) != raw@,
            decreases 3 - i,
        {
            let label = chars_of(states[i].label());
            if slice_eq(label.as_slice(), chars.as_slice()) {
                return Ok(states[i]);
            }
            i = i + 1;
        }
        assert(state_label(states@[0]) != raw@);
        assert(state_label(states@[1]) != raw@);
        assert(state_label(states@[2]) != raw@);
        assert forall|s: StructuralFieldState| state_label(s) != raw@ by {
            match s {
                StructuralFieldState::Present => {},
                StructuralFieldState::Empty => {},
                StructuralFieldState::Missing => {},
            }
        }
        Err(StructuralStateFilterParseError::UnknownState(owned(raw)))
    }
}

/// Structural query state filter parsed from `FIELD=STATE`.
#[derive(Debug)]
pub struct StructuralStateFilter {
    /// Structural field name.
    pub field: String,
    /// Accepted state for this field.
    pub state: StructuralFieldState,
}

impl StructuralStateFilter {
    /// Parse `FIELD=STATE`, splitting at the first `=`; both sides are trimmed.
    pub fn from_str(raw: &str) -> (r: Result<Self, StructuralStateFilterParseError>)
        ensures
            first_index(raw@, '=') < 0 ==> r matches Err(StructuralStateFilterParseError::MissingEquals),
            first_index(raw@, '=') >= 0 && trim(raw@.subrange(0, first_index(raw@, '='))).len() == 0 ==> r matches Err(StructuralStateFilterParseError::EmptyField),
            r matches Ok(f) ==> ({
                let k = first_index(raw@, '=');
                &&& k >= 0
                &&& f.field@ == trim(raw@.subrange(0, k))
                &&& f.field@.len() > 0
                &&& state_label(f.state) == trim(raw@.subrange(k + 1, raw@.len() as int))
            }),
            first_index(raw@, '=') >= 0 && trim(raw@.subrange(0, first_index(raw@, '='))).len() > 0 && (exists|s: StructuralFieldState| state_label(s) == trim(raw@.subrange(first_index(raw@, '=') + 1, raw@.len() as int))) ==> r is Ok,
    {
        let chars = chars_of(raw);
        let k = match find_char(chars.as_slice(), '=') {
            Some(k) => k,
            None => {
                return Err(StructuralStateFilterParseError::MissingEquals);
            },
        };
        proof {
            lemma_first_index(raw@, '=');
        }
        let field_chars = crate::text::slice_range(chars.as_slice(), 0, k);
        let field = trim_slice(field_chars.as_slice());
        if field.len() == 0 {
            return Err(StructuralStateFilterParseError::EmptyField);
        }
        let n = chars.len();
        let rest = crate::text::slice_range(chars.as_slice(), k + 1, n);
        let state_chars = trim_slice(rest.as_slice());
        let state_text = string_from(state_chars.as_slice());
        match StructuralFieldState::from_str(state_text.as_str()) {
            Ok(state) => Ok(StructuralStateFilter { field: string_from(field.as_slice()), state }),
            Err(e) => Err(e),
        }
    }
}

impl std::str::FromStr for QueryColumns {
    type Err = QueryColumnsParseError;

    fn from_str(raw: &str) -> Result<Self, Self::Err> {
        QueryColumns::from_str(raw)
    }
}

impl std::str::FromStr for QueryColumn {
    type Err = QueryColumnsParseError;

    fn from_str(raw: &str) -> Result<Self, Self::Err> {
        QueryColumn::from_str(raw)
    }
}

impl std::str::FromStr for StructuralFilter {
    type Err = StructuralFilterParseError;

    fn from_str(raw: &str) -> Result<Self, Self::Err> {
        StructuralFilter::from_str(raw)
    }
}

impl std::str::FromStr for StructuralStateFilter {
    type Err = StructuralStateFilterParseError;

    fn from_str(raw: &str) -> Result<Self, Self::Err> {
        StructuralStateFilter::from_str(raw)
    }
}

impl std::str::FromStr for StructuralFieldState {
    type Err = StructuralStateFilterParseError;

    fn from_str(raw: &str) -> Result<Self, Self::Err> {
        StructuralFieldState::from_str(raw)
    }
}

} // verus!
