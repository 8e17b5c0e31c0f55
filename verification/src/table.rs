//! Human-readable tables: column elision to a width, and the rendered box-drawing text.

use vstd::prelude::*;

use crate::query::{QueryColumns, QueryColumn, column_label};
use crate::text::{owned, strings_view};

verus! {

/// Views of table rows.
pub open spec fn rows_view(rows: Seq<Vec<String>>) -> Seq<Seq<Seq<char>>> {
    rows.map_values(|r: Vec<String>| strings_view(r@))
}

/// Display width of a text in terminal columns.
pub uninterp spec fn display_width(s: Seq<char>) -> nat;

/// Calls `unicode_width::UnicodeWidthStr::width` on the text; the result is the named
/// width of that text and nothing more is claimed of it.
#[verifier::external_body]
fn text_width(s: &str) -> (r: usize)
    ensures
        r == display_width(s@),
{
    unicode_width::UnicodeWidthStr::width(s)
}

/// Text of a table with the given header and rows, laid out to `width` columns when a width
/// is given and unconstrained otherwise.
pub uninterp spec fn table_text(
    headers: Seq<Seq<char>>,
    rows: Seq<Seq<Seq<char>>>,
    width: Option<u16>,
) -> Seq<char>;

/// Builds a `comfy_table::Table` with the `UTF8_FULL` preset and dynamic arrangement, sets
/// the width when one is given (and no terminal otherwise), adds the header and rows, and
/// renders it with `to_string`. The result is the named table text of those arguments;
/// nothing more is claimed of it.
#[verifier::external_body]
fn render_table(headers: &Vec<String>, rows: &Vec<Vec<String>>, width: Option<u16>) -> (r: String)
    ensures
        r@ == table_text(strings_view(headers@), rows_view(rows@), width),
{
    let mut table = comfy_table::Table::new();
    table.load_preset(comfy_table::presets::UTF8_FULL);
    table.set_content_arrangement(comfy_table::ContentArrangement::Dynamic);
    match width {
        Some(w) => {
            table.set_width(w);
        },
        None => {
            table.force_no_tty();
        },
    }
    table.set_header(headers.clone());
    table.add_rows(rows.clone());
    table.to_string()
}

/// Asks `comfy_table::Table::width` of a table without a set width, which is the terminal
/// width when standard output is a terminal. The answer depends on the terminal, so nothing
/// is claimed of it.
#[verifier::external_body]
pub(crate) fn terminal_width() -> (r: Option<u16>) {
    comfy_table::Table::new().width()
}

/// Sum of the header widths, each at least one column.
pub open spec fn header_widths(hs: Seq<Seq<char>>) -> int
    decreases hs.len(),
{
    if hs.len() == 0 {
        0
    } else {
        header_widths(hs.drop_last()) + if display_width(hs.last()) >= 1 {
            display_width(hs.last()) as int
        } else {
            1
        }
    }
}

/// Narrowest width at which a table with these headers fits, saturated at `usize::MAX`.
pub open spec fn min_width(hs: Seq<Seq<char>>) -> int {
    let w = header_widths(hs) + 3 * hs.len() + 1;
    if w <= usize::MAX {
        w
    } else {
        usize::MAX as int
    }
}

/// Narrowest width at which a table with these headers fits, saturated at `usize::MAX`.
pub fn min_table_width(headers: &Vec<String>) -> (r: usize)
    ensures
        r == min_width(strings_view(headers@)),
{
    let ghost hs = strings_view(headers@);
    let mut total: usize = 0;
    let mut saturated = false;
    let mut i: usize = 0;
    assert(hs.take(0) =~= Seq::<Seq<char>>::empty());
    while i < headers.len()
        invariant
            i <= hs.len(),
            hs == strings_view(headers@),
            saturated ==> header_widths(hs.take(i as int)) > usize::MAX,
            !saturated ==> total == header_widths(hs.take(i as int)),
        decreases hs.len() - i,
    {
        assert(hs.take(i + 1).drop_last() =~= hs.take(i as int));
        assert(hs.take(i + 1).last() == headers@[i as int]@);
        let w = text_width(headers[i].as_str());
        let w = if w >= 1 { w } else { 1 };
        if !saturated {
            match total.checked_add(w) {
                Some(t) => { total = t; },
                None => { saturated = true; },
            }
        }
        proof {
            lemma_header_widths_nonneg(hs.take(i as int));
        }
        i = i + 1;
    }
    assert(hs.take(i as int) =~= hs);
    let n = headers.len();
    if saturated {
        return usize::MAX;
    }
    match n.checked_mul(3) {
        None => usize::MAX,
        Some(m) => match total.checked_add(m) {
            None => usize::MAX,
            Some(t) => match t.checked_add(1) {
                None => usize::MAX,
                Some(t) => t,
            },
        },
    }
}

proof fn lemma_header_widths_nonneg(hs: Seq<Seq<char>>)
    ensures
        header_widths(hs) >= 0,
    decreases hs.len(),
{
    if hs.len() > 0 {
        lemma_header_widths_nonneg(hs.drop_last());
    }
}

/// The marker that stands for elided columns.
pub open spec fn ellipsis() -> Seq<char> {
    seq!['.', '.', '.']
}

/// The first `n` cells of a row, or the whole row when it is shorter.
pub open spec fn take_cells(r: Seq<Seq<char>>, n: int) -> Seq<Seq<char>> {
    if n <= r.len() {
        r.take(n)
    } else {
        r
    }
}

/// The number of columns to keep before the ellipsis: the largest `v < n` whose table fits,
/// searching down from `v`; 0 when none fits.
pub open spec fn visible_columns(hs: Seq<Seq<char>>, width: int, v: int) -> int
    decreases v,
{
    if v <= 0 {
        0
    } else if min_width(hs.take(v).push(ellipsis())) <= width {
        v
    } else {
        visible_columns(hs, width, v - 1)
    }
}

/// Headers and rows with trailing columns replaced by `...` so that the table fits `width`.
pub open spec fn elide_spec(
    hs: Seq<Seq<char>>,
    rows: Seq<Seq<Seq<char>>>,
    width: Option<u16>,
) -> (Seq<Seq<char>>, Seq<Seq<Seq<char>>>) {
    match width {
        None => (hs, rows),
        Some(w) => if hs.len() <= 2 || min_width(hs) <= w {
            (hs, rows)
        } else {
            let v = visible_columns(hs, w as int, hs.len() - 1);
            if v > 0 {
                (
                    hs.take(v).push(ellipsis()),
                    rows.map_values(|r: Seq<Seq<char>>| take_cells(r, v).push(ellipsis())),
                )
            } else {
                (hs.take(1), rows.map_values(|r: Seq<Seq<char>>| take_cells(r, 1)))
            }
        },
    }
}

/// The ellipsis marker.
fn ellipsis_string() -> (r: String)
    ensures
        r@ == ellipsis(),
{
    let mut s = String::new();
    crate::text::push_char(&mut s, '.');
    crate::text::push_char(&mut s, '.');
    crate::text::push_char(&mut s, '.');
    assert(s@ =~= ellipsis());
    s
}

/// The first `n` strings, copied, followed by `extra` when given.
fn take_strings(v: &Vec<String>, n: usize, extra: bool) -> (r: Vec<String>)
    ensures
        strings_view(r@) == if extra {
            take_cells(strings_view(v@), n as int).push(ellipsis())
        } else {
            take_cells(strings_view(v@), n as int)
        },
{
    let ghost s = strings_view(v@);
    let m = if n <= v.len() { n } else { v.len() };
    let mut r: Vec<String> = Vec::new();
    let mut i: usize = 0;
    while i < m
        invariant
            i <= m <= v@.len(),
            m == if n <= v@.len() { n as int } else { v@.len() as int },
            s == strings_view(v@),
            strings_view(r@) == s.take(i as int),
        decreases m - i,
    {
        let ghost prev = r@;
        r.push(owned(v[i].as_str()));
        assert(strings_view(r@) =~= strings_view(prev).push(s[i as int]));
        assert(strings_view(r@) =~= s.take(i + 1));
        i = i + 1;
    }
    assert(take_cells(s, n as int) =~= s.take(m as int));
    if extra {
        let ghost prev = r@;
        r.push(ellipsis_string());
        assert(strings_view(r@) =~= strings_view(prev).push(ellipsis()));
    }
    r
}

/// Every row cut to its first `n` cells, each followed by `...` when `extra`.
fn take_rows(rows: &Vec<Vec<String>>, n: usize, extra: bool) -> (r: Vec<Vec<String>>)
    ensures
        rows_view(r@) == if extra {
            rows_view(rows@).map_values(|x: Seq<Seq<char>>| take_cells(x, n as int).push(ellipsis()))
        } else {
            rows_view(rows@).map_values(|x: Seq<Seq<char>>| take_cells(x, n as int))
        },
{
    let ghost target = if extra {
        rows_view(rows@).map_values(|x: Seq<Seq<char>>| take_cells(x, n as int).push(ellipsis()))
    } else {
        rows_view(rows@).map_values(|x: Seq<Seq<char>>| take_cells(x, n as int))
    };
    let mut r: Vec<Vec<String>> = Vec::new();
    let mut i: usize = 0;
    while i < rows.len()
        invariant
            i <= rows@.len(),
            target.len() == rows@.len(),
            target == if extra {
                rows_view(rows@).map_values(|x: Seq<Seq<char>>| take_cells(x, n as int).push(ellipsis()))
            } else {
                rows_view(rows@).map_values(|x: Seq<Seq<char>>| take_cells(x, n as int))
            },
            rows_view(r@) == target.take(i as int),
        decreases rows@.len() - i,
    {
        let ghost prev = r@;
        r.push(take_strings(&rows[i], n, extra));
        assert(rows_view(r@) =~= rows_view(prev).push(target[i as int]));
        assert(rows_view(r@) =~= target.take(i + 1));
        i = i + 1;
    }
    assert(target.take(i as int) =~= target);
    r
}

/// Replace trailing columns with `...` so that the table fits `width`; with no width, or
/// with at most two columns, or when the table fits, nothing changes. When no column fits
/// beside `...`, only the first column is kept.
pub fn elide_human_table_columns(
    headers: Vec<String>,
    rows: Vec<Vec<String>>,
    width: Option<u16>,
) -> (r: (Vec<String>, Vec<Vec<String>>))
    ensures
        (strings_view(r.0@), rows_view(r.1@)) == elide_spec(
            strings_view(headers@),
            rows_view(rows@),
            width,
        ),
{
    let ghost hs = strings_view(headers@);
    let w = match width {
        None => { return (headers, rows); },
        Some(w) => w,
    };
    let wide: usize = w as usize;
    if headers.len() <= 2 || min_table_width(&headers) <= wide {
        return (headers, rows);
    }
    let mut visible: usize = headers.len() - 1;
    while visible > 0
        invariant
            visible <= headers@.len() - 1,
            hs == strings_view(headers@),
            wide == w as int,
            width == Some(w),
            !(hs.len() <= 2 || min_width(hs) <= w),
            visible_columns(hs, w as int, visible as int) == visible_columns(hs, w as int, headers@.len() - 1),
        decreases visible,
    {
        let candidate = take_strings(&headers, visible, true);
        assert(hs.take(visible as int).push(ellipsis()) == take_cells(hs, visible as int).push(ellipsis()));
        if min_table_width(&candidate) <= wide {
            assert(visible_columns(hs, w as int, visible as int) == visible as int);
            let cells = take_rows(&rows, visible, true);
            return (candidate, cells);
        }
        visible = visible - 1;
    }
    let first = take_strings(&headers, 1, false);
    assert(take_cells(hs, 1) == hs.take(1));
    let cells = take_rows(&rows, 1, false);
    (first, cells)
}

/// Table text of the header and rows at a width, elided to fit, with a final line break.
pub open spec fn table_at_width(
    hs: Seq<Seq<char>>,
    rows: Seq<Seq<Seq<char>>>,
    width: Option<u16>,
) -> Seq<char> {
    let e = elide_spec(hs, rows, width);
    table_text(e.0, e.1, width).push('\n')
}

/// Render a table at a given width, eliding trailing columns that do not fit.
pub fn format_table_at_width(headers: Vec<String>, rows: Vec<Vec<String>>, width: Option<u16>) -> (r: String)
    ensures
        r@ == table_at_width(strings_view(headers@), rows_view(rows@), width),
{
    let (h, c) = elide_human_table_columns(headers, rows, width);
    let mut out = render_table(&h, &c, width);
    crate::text::push_char(&mut out, '\n');
    out
}

/// Render a table at the given width, or at the terminal width when none is given.
pub fn format_human_table_with_width(headers: Vec<String>, rows: Vec<Vec<String>>, width: Option<u16>) -> (r: String)
    ensures
        width is Some ==> r@ == table_at_width(strings_view(headers@), rows_view(rows@), width),
        width is None ==> exists|w: Option<u16>| r@ == table_at_width(strings_view(headers@), rows_view(rows@), w),
{
    let w = match width {
        Some(w) => Some(w),
        None => terminal_width(),
    };
    format_table_at_width(headers, rows, w)
}

/// Render a table at the terminal width.
pub fn format_human_table(headers: Vec<String>, rows: Vec<Vec<String>>) -> (r: String)
    ensures
        exists|w: Option<u16>| r@ == table_at_width(strings_view(headers@), rows_view(rows@), w),
{
    format_human_table_with_width(headers, rows, None)
}

/// Labels of a column list.
pub open spec fn column_labels(cs: Seq<QueryColumn>) -> Seq<Seq<char>> {
    cs.map_values(|c: QueryColumn| column_label(c))
}

/// A copy of the rows.
fn copy_rows(rows: &[Vec<String>]) -> (r: Vec<Vec<String>>)
    ensures
        rows_view(r@) == rows_view(rows@),
{
    let mut r: Vec<Vec<String>> = Vec::new();
    let mut i: usize = 0;
    while i < rows.len()
        invariant
            i <= rows@.len(),
            rows_view(r@) == rows_view(rows@).take(i as int),
        decreases rows@.len() - i,
    {
        let ghost prev = r@;
        let row = take_strings(&rows[i], rows[i].len(), false);
        assert(take_cells(strings_view(rows@[i as int]@), rows@[i as int]@.len() as int) =~= strings_view(rows@[i as int]@));
        r.push(row);
        assert(rows_view(r@) =~= rows_view(prev).push(rows_view(rows@)[i as int]));
        assert(rows_view(r@) =~= rows_view(rows@).take(i + 1));
        i = i + 1;
    }
    assert(rows_view(rows@).take(i as int) =~= rows_view(rows@));
    r
}

/// Render query rows under the selected column labels, at the given width.
pub fn format_query_table_at_width(columns: &QueryColumns, rows: &[Vec<String>], width: Option<u16>) -> (r: String)
    ensures
        r@ == table_at_width(column_labels(columns@), rows_view(rows@), width),
{
    let headers = columns.labels();
    let copy = copy_rows(rows);
    format_table_at_width(headers, copy, width)
}

/// Render query rows under the selected column labels, at the terminal width.
pub fn format_query_table(columns: &QueryColumns, rows: &[Vec<String>]) -> (r: String)
    ensures
        exists|w: Option<u16>| r@ == table_at_width(column_labels(columns@), rows_view(rows@), w),
{
    let w = terminal_width();
    format_query_table_at_width(columns, rows, w)
}

} // verus!
