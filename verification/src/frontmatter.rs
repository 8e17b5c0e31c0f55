//! The Markdown frontmatter block of an entry file.
//!
//! A source opens with a `---` fence line, holds metadata lines, and closes with a second
//! `---` fence line; one blank line may separate the block from the body.
//! Lines end in LF or CRLF. Positions below count characters of the source.

use vstd::prelude::*;

use crate::entry::{EntryParseError, ParseErrorView};
use crate::text::{chars_of, push_char, push_str, string_from};

verus! {

/// Index of the first line feed at or after `from`, or -1.
pub open spec fn line_end(s: Seq<char>, from: int) -> int
    decreases s.len() - from,
{
    if from < 0 || from >= s.len() {
        -1
    } else if s[from] == '\n' {
        from
    } else {
        line_end(s, from + 1)
    }
}

pub proof fn lemma_line_end(s: Seq<char>, from: int)
    requires
        0 <= from,
    ensures
        line_end(s, from) == -1 || (from <= line_end(s, from) < s.len() && s[line_end(s, from)]
            == '\n'),
        line_end(s, from) == -1 ==> forall|i: int| from <= i < s.len() ==> s[i] != '\n',
        line_end(s, from) >= 0 ==> forall|i: int| from <= i < line_end(s, from) ==> s[i] != '\n',
    decreases s.len() - from,
{
    if from < s.len() && s[from] != '\n' {
        lemma_line_end(s, from + 1);
    }
}

/// A fence line: `---` followed by LF or CRLF.
pub open spec fn is_fence(line: Seq<char>) -> bool {
    line == seq!['-', '-', '-', '\n'] || line == seq!['-', '-', '-', '\r', '\n']
}

/// Length of the line ending of a line that ends in a line feed.
pub open spec fn ending_len(line: Seq<char>) -> int {
    if line.len() >= 2 && line[line.len() - 2] == '\r' {
        2
    } else {
        1
    }
}

/// Length of a line break starting at `at`: 2 for CRLF, 1 for LF, else 0.
pub open spec fn break_len_at(s: Seq<char>, at: int) -> int {
    if at + 1 < s.len() && s[at] == '\r' && s[at + 1] == '\n' {
        2
    } else if 0 <= at < s.len() && s[at] == '\n' {
        1
    } else {
        0
    }
}

/// Scan metadata lines from `cursor` for the closing fence.
///
/// Yields the end of the metadata text and the start of the body.
pub open spec fn scan_closing(s: Seq<char>, cursor: int, metadata_end: int) -> Option<(int, int)>
    decreases s.len() - cursor,
{
    if cursor < 0 || cursor >= s.len() {
        None
    } else {
        let e = line_end(s, cursor);
        if e < 0 {
            None
        } else {
            let line = s.subrange(cursor, e + 1);
            if is_fence(line) {
                Some((metadata_end, e + 1 + break_len_at(s, e + 1)))
            } else {
                proof {
                    lemma_line_end(s, cursor);
                }
                scan_closing(s, e + 1, e + 1 - ending_len(line))
            }
        }
    }
}

/// Positions of the frontmatter block: metadata start, metadata end, body start.
pub open spec fn frontmatter_bounds(s: Seq<char>) -> Result<(int, int, int), ParseErrorView> {
    let e = line_end(s, 0);
    if e < 0 || !is_fence(s.subrange(0, e + 1)) {
        Err(ParseErrorView::MissingFrontmatter)
    } else {
        match scan_closing(s, e + 1, e + 1) {
            Some((me, bs)) => Ok((e + 1, me, bs)),
            None => Err(ParseErrorView::UnterminatedFrontmatter),
        }
    }
}

pub proof fn lemma_scan_closing(s: Seq<char>, cursor: int, metadata_end: int)
    requires
        0 <= metadata_end <= cursor,
    ensures
        scan_closing(s, cursor, metadata_end) matches Some((me, bs)) ==> metadata_end <= me
            <= bs <= s.len() && me <= cursor + s.len(),
    decreases s.len() - cursor,
{
    if 0 <= cursor < s.len() {
        lemma_line_end(s, cursor);
        let e = line_end(s, cursor);
        if e >= 0 {
            let line = s.subrange(cursor, e + 1);
            if !is_fence(line) {
                lemma_scan_closing(s, e + 1, e + 1 - ending_len(line));
            }
        }
    }
}

pub proof fn lemma_frontmatter_bounds(s: Seq<char>)
    ensures
        frontmatter_bounds(s) matches Ok((ms, me, bs)) ==> 0 <= ms <= me <= bs <= s.len(),
{
    lemma_line_end(s, 0);
    let e = line_end(s, 0);
    if e >= 0 {
        lemma_scan_closing(s, e + 1, e + 1);
    }
}

/// Metadata text and body of a source.
pub open spec fn split_frontmatter_spec(s: Seq<char>) -> Result<
    (Seq<char>, Seq<char>),
    ParseErrorView,
> {
    match frontmatter_bounds(s) {
        Ok((ms, me, bs)) => Ok((s.subrange(ms, me), s.subrange(bs, s.len() as int))),
        Err(e) => Err(e),
    }
}

/// Index of the first line feed at or after `from`, if any.
fn find_line_end(s: &[char], from: usize) -> (r: Option<usize>)
    ensures
        r matches Some(i) ==> line_end(s@, from as int) == i,
        r is None ==> line_end(s@, from as int) == -1,
    decreases s@.len() - from,
{
    let mut i = from;
    while i < s.len()
        invariant
            from <= i,
            line_end(s@, from as int) == line_end(s@, i as int),
        decreases s@.len() - i,
    {
        if s[i] == '\n' {
            return Some(i);
        }
        i = i + 1;
    }
    None
}

/// Whether `s[start..=end]` is a fence line.
fn fence_at(s: &[char], start: usize, end: usize) -> (r: bool)
    requires
        start <= end < s@.len(),
    ensures
        r == is_fence(s@.subrange(start as int, end + 1)),
{
    let len = end - start;
    if len == 3 {
        let r = s[start] == '-' && s[start + 1] == '-' && s[start + 2] == '-' && s[start + 3]
            == '\n';
        assert(r == (s@.subrange(start as int, end + 1) =~= seq!['-', '-', '-', '\n']));
        assert(s@.subrange(start as int, end + 1) != seq!['-', '-', '-', '\r', '\n']);
        r
    } else if len == 4 {
        let r = s[start] == '-' && s[start + 1] == '-' && s[start + 2] == '-' && s[start + 3]
            == '\r' && s[start + 4] == '\n';
        assert(r == (s@.subrange(start as int, end + 1) =~= seq!['-', '-', '-', '\r', '\n']));
        assert(s@.subrange(start as int, end + 1) != seq!['-', '-', '-', '\n']);
        r
    } else {
        assert(s@.subrange(start as int, end + 1).len() == len + 1);
        false
    }
}

/// Locate the frontmatter block: metadata start, metadata end, body start.
pub fn frontmatter_positions(s: &[char]) -> (r: Result<(usize, usize, usize), EntryParseError>)
    ensures
        match r {
            Ok((ms, me, bs)) => frontmatter_bounds(s@) == Ok::<(int, int, int), ParseErrorView>(
                (ms as int, me as int, bs as int),
            ),
            Err(e) => frontmatter_bounds(s@) == Err::<(int, int, int), ParseErrorView>(e@),
        },
{
    proof {
        lemma_line_end(s@, 0);
    }
    let first = match find_line_end(s, 0) {
        Some(e) => e,
        None => {
            return Err(EntryParseError::MissingFrontmatter);
        },
    };
    if !fence_at(s, 0, first) {
        return Err(EntryParseError::MissingFrontmatter);
    }
    let metadata_start = first + 1;
    let mut metadata_end = metadata_start;
    let mut cursor = metadata_start;
    while cursor < s.len()
        invariant
            metadata_start <= metadata_end <= cursor <= s@.len(),
            line_end(s@, 0) == first,
            is_fence(s@.subrange(0, first + 1)),
            metadata_start == first + 1,
            scan_closing(s@, metadata_start as int, metadata_start as int) == scan_closing(
                s@,
                cursor as int,
                metadata_end as int,
            ),
        decreases s@.len() - cursor,
    {
        proof {
            lemma_line_end(s@, cursor as int);
        }
        let e = match find_line_end(s, cursor) {
            Some(e) => e,
            None => {
                return Err(EntryParseError::UnterminatedFrontmatter);
            },
        };
        if fence_at(s, cursor, e) {
            let after = e + 1;
            let brk: usize = if after < s.len() && after + 1 < s.len() && s[after] == '\r' && s[after + 1] == '\n' {
                2
            } else if after < s.len() && s[after] == '\n' {
                1
            } else {
                0
            };
            return Ok((metadata_start, metadata_end, after + brk));
        }
        let ghost line = s@.subrange(cursor as int, e + 1);
        let ending: usize = if e >= cursor + 1 && s[e - 1] == '\r' {
            2
        } else {
            1
        };
        assert(ending == ending_len(line));
        metadata_end = e + 1 - ending;
        cursor = e + 1;
    }
    Err(EntryParseError::UnterminatedFrontmatter)
}

/// Copy `s[from..to]` into a string.
pub fn substring(s: &[char], from: usize, to: usize) -> (r: String)
    requires
        from <= to <= s@.len(),
    ensures
        r@ == s@.subrange(from as int, to as int),
{
    let mut out = String::new();
    let mut i = from;
    while i < to
        invariant
            from <= i <= to <= s@.len(),
            out@ == s@.subrange(from as int, i as int),
        decreases to - i,
    {
        push_char(&mut out, s[i]);
        i = i + 1;
        assert(out@ =~= s@.subrange(from as int, i as int));
    }
    out
}

/// Metadata text and body of an entry source.
pub fn split_frontmatter(source: &str) -> (r: Result<(String, String), EntryParseError>)
    ensures
        match r {
            Ok((m, b)) => split_frontmatter_spec(source@) == Ok::<
                (Seq<char>, Seq<char>),
                ParseErrorView,
            >((m@, b@)),
            Err(e) => split_frontmatter_spec(source@) == Err::<
                (Seq<char>, Seq<char>),
                ParseErrorView,
            >(e@),
        },
{
    let chars = chars_of(source);
    proof {
        lemma_frontmatter_bounds(chars@);
    }
    let (ms, me, bs) = frontmatter_positions(chars.as_slice())?;
    let metadata = substring(chars.as_slice(), ms, me);
    let body = substring(chars.as_slice(), bs, chars.len());
    Ok((metadata, body))
}

/// Source with its body replaced; the frontmatter and its separator are kept as they are.
pub open spec fn replace_body_spec(s: Seq<char>, body: Seq<char>) -> Result<
    Seq<char>,
    ParseErrorView,
> {
    match frontmatter_bounds(s) {
        Ok((ms, me, bs)) => Ok(s.subrange(0, bs) + body),
        Err(e) => Err(e),
    }
}

/// Replace the Markdown body of an entry source, keeping its frontmatter exactly.
pub fn replace_markdown_body(source: &str, body: &str) -> (r: Result<String, EntryParseError>)
    ensures
        match r {
            Ok(out) => replace_body_spec(source@, body@) == Ok::<Seq<char>, ParseErrorView>(out@),
            Err(e) => replace_body_spec(source@, body@) == Err::<Seq<char>, ParseErrorView>(e@),
        },
{
    let chars = chars_of(source);
    proof {
        lemma_frontmatter_bounds(chars@);
    }
    let (_ms, _me, bs) = frontmatter_positions(chars.as_slice())?;
    let mut out = substring(chars.as_slice(), 0, bs);
    push_str(&mut out, body);
    Ok(out)
}

/// End of the closing fence line found by scanning from `cursor`, or -1.
pub open spec fn closing_fence_end(s: Seq<char>, cursor: int) -> int
    decreases s.len() - cursor,
{
    if cursor < 0 || cursor >= s.len() {
        -1
    } else {
        let e = line_end(s, cursor);
        if e < 0 {
            -1
        } else if is_fence(s.subrange(cursor, e + 1)) {
            e + 1
        } else {
            proof {
                lemma_line_end(s, cursor);
            }
            closing_fence_end(s, e + 1)
        }
    }
}

/// A blank line separates the frontmatter block from the body.
pub open spec fn body_separated(s: Seq<char>) -> bool {
    let f = closing_fence_end(s, line_end(s, 0) + 1);
    f >= 0 && break_len_at(s, f) > 0
}

/// The scan for the closing fence ends at that fence, one line break past it when there is one.
proof fn lemma_scan_fence(s: Seq<char>, cursor: int, metadata_end: int)
    requires
        0 <= cursor,
        metadata_end <= cursor,
    ensures
        scan_closing(s, cursor, metadata_end) is Some <==> closing_fence_end(s, cursor) >= 0,
        scan_closing(s, cursor, metadata_end) matches Some((me, bs)) ==> bs == closing_fence_end(
            s,
            cursor,
        ) + break_len_at(s, closing_fence_end(s, cursor)) && me <= closing_fence_end(s, cursor)
            && cursor < closing_fence_end(s, cursor) <= s.len() && s[closing_fence_end(s, cursor) - 1]
            == '\n',
    decreases s.len() - cursor,
{
    if cursor < s.len() {
        lemma_line_end(s, cursor);
        let e = line_end(s, cursor);
        if e >= 0 {
            let line = s.subrange(cursor, e + 1);
            if !is_fence(line) {
                lemma_scan_fence(s, e + 1, e + 1 - ending_len(line));
            }
        }
    }
}

/// A line end before `limit` is found the same way in a text that agrees up to `limit`.
proof fn lemma_line_end_agree(s: Seq<char>, t: Seq<char>, from: int, limit: int)
    requires
        0 <= from,
        limit <= s.len(),
        limit <= t.len(),
        forall|i: int| 0 <= i < limit ==> s[i] == t[i],
        from <= line_end(s, from) < limit,
    ensures
        line_end(t, from) == line_end(s, from),
    decreases s.len() - from,
{
    lemma_line_end(s, from);
    if s[from] != '\n' {
        lemma_line_end_agree(s, t, from + 1, limit);
    }
}

/// Scanning a text that agrees up to the closing fence gives the same fence and metadata end.
proof fn lemma_scan_agree(s: Seq<char>, t: Seq<char>, cursor: int, metadata_end: int)
    requires
        0 <= cursor,
        metadata_end <= cursor,
        closing_fence_end(s, cursor) >= 0,
        closing_fence_end(s, cursor) <= t.len(),
        forall|i: int| 0 <= i < closing_fence_end(s, cursor) ==> s[i] == t[i],
    ensures
        closing_fence_end(t, cursor) == closing_fence_end(s, cursor),
        scan_closing(s, cursor, metadata_end) matches Some((me, _)) && scan_closing(
            t,
            cursor,
            metadata_end,
        ) == Some::<(int, int)>(
            (me, closing_fence_end(s, cursor) + break_len_at(t, closing_fence_end(s, cursor))),
        ),
    decreases s.len() - cursor,
{
    lemma_scan_fence(s, cursor, metadata_end);
    lemma_line_end(s, cursor);
    let f = closing_fence_end(s, cursor);
    let e = line_end(s, cursor);
    lemma_line_end_agree(s, t, cursor, f);
    let line = s.subrange(cursor, e + 1);
    assert(t.subrange(cursor, e + 1) =~= line);
    if !is_fence(line) {
        lemma_line_end(s, e + 1);
        lemma_scan_agree(s, t, e + 1, e + 1 - ending_len(line));
    }
}

/// The line break at the start of `p + b`'s second part is the line break at the start of `b`.
proof fn lemma_break_after_prefix(p: Seq<char>, b: Seq<char>)
    ensures
        break_len_at(p + b, p.len() as int) == break_len_at(b, 0),
{
    let o = p + b;
    if b.len() > 0 {
        assert(o[p.len() as int] == b[0]);
    }
    if b.len() > 1 {
        assert(o[p.len() as int + 1] == b[1]);
    }
}

/// Replacing the body and reading the source back gives the same metadata and the new body,
/// unless no blank line follows the frontmatter and the new body starts with a line break:
/// that line break then reads as the separating blank line.
pub proof fn law_replaced_body_reads_back(s: Seq<char>, body: Seq<char>)
    requires
        split_frontmatter_spec(s) is Ok,
        body_separated(s) || break_len_at(body, 0) == 0,
    ensures
        replace_body_spec(s, body) matches Ok(out) && split_frontmatter_spec(out) == Ok::<
            (Seq<char>, Seq<char>),
            ParseErrorView,
        >((split_frontmatter_spec(s)->Ok_0.0, body)),
{
    lemma_frontmatter_bounds(s);
    lemma_line_end(s, 0);
    let e0 = line_end(s, 0);
    let (ms, me, bs) = frontmatter_bounds(s)->Ok_0;
    lemma_scan_fence(s, e0 + 1, e0 + 1);
    let f = closing_fence_end(s, e0 + 1);
    let out = s.subrange(0, bs) + body;
    assert(forall|i: int| 0 <= i < bs ==> s[i] == out[i]);
    lemma_line_end_agree(s, out, 0, f);
    assert(out.subrange(0, e0 + 1) =~= s.subrange(0, e0 + 1));
    lemma_scan_agree(s, out, e0 + 1, e0 + 1);
    assert(break_len_at(out, f) == break_len_at(s, f)) by {
        if break_len_at(s, f) == 0 {
            assert(bs == f);
            assert(s.subrange(0, bs).len() == f);
            lemma_break_after_prefix(s.subrange(0, bs), body);
        } else if break_len_at(s, f) == 1 {
            assert(out[f] == s[f]);
        } else {
            assert(out[f] == s[f]);
            assert(out[f + 1] == s[f + 1]);
        }
    }
    assert(frontmatter_bounds(out) == Ok::<(int, int, int), ParseErrorView>((ms, me, bs)));
    assert(out.subrange(ms, me) =~= s.subrange(ms, me));
    assert(out.subrange(bs, out.len() as int) =~= body);
}

/// Whether the line feed at `i` ends a CRLF line.
pub open spec fn crlf_at(s: Seq<char>, i: int) -> bool {
    i > 0 && s[i - 1] == '\r'
}

/// The source has an LF-only line and a CRLF line.
pub open spec fn mixed_line_endings(s: Seq<char>) -> bool {
    exists|i: int, j: int|
        0 <= i < s.len() && 0 <= j < s.len() && s[i] == '\n' && s[j] == '\n' && crlf_at(s, i)
            && !crlf_at(s, j)
}

/// Whether one source mixes LF-only and CRLF line endings.
pub fn has_mixed_line_endings(source: &str) -> (r: bool)
    ensures
        r == mixed_line_endings(source@),
{
    let s = chars_of(source);
    let mut seen_crlf = false;
    let mut seen_lf = false;
    let mut i: usize = 0;
    while i < s.len()
        invariant
            i <= s@.len(),
            s@ == source@,
            seen_crlf == exists|k: int| 0 <= k < i && s@[k] == '\n' && crlf_at(s@, k),
            seen_lf == exists|k: int| 0 <= k < i && s@[k] == '\n' && !crlf_at(s@, k),
            !(seen_crlf && seen_lf),
        decreases s@.len() - i,
    {
        if s[i] == '\n' {
            if i > 0 && s[i - 1] == '\r' {
                if seen_lf {
                    assert(crlf_at(s@, i as int));
                    return true;
                }
                seen_crlf = true;
            } else {
                if seen_crlf {
                    assert(!crlf_at(s@, i as int));
                    return true;
                }
                seen_lf = true;
            }
        }
        i = i + 1;
    }
    false
}

/// Every CRLF and every lone carriage return turned into a line feed.
pub open spec fn normalize_endings_spec(s: Seq<char>) -> Seq<char>
    decreases s.len(),
{
    if s.len() == 0 {
        s
    } else if s[0] == '\r' && s.len() >= 2 && s[1] == '\n' {
        seq!['\n'] + normalize_endings_spec(s.subrange(2, s.len() as int))
    } else if s[0] == '\r' {
        seq!['\n'] + normalize_endings_spec(s.drop_first())
    } else {
        seq![s[0]] + normalize_endings_spec(s.drop_first())
    }
}

pub proof fn lemma_normalized_has_no_cr(s: Seq<char>)
    ensures
        !crate::text::has_char(normalize_endings_spec(s), '\r'),
    decreases s.len(),
{
    if s.len() > 0 {
        if s[0] == '\r' && s.len() >= 2 && s[1] == '\n' {
            lemma_normalized_has_no_cr(s.subrange(2, s.len() as int));
        } else {
            lemma_normalized_has_no_cr(s.drop_first());
        }
        let r = normalize_endings_spec(s);
        assert forall|i: int| 0 <= i < r.len() implies r[i] != '\r' by {
            if i > 0 {
                let tail = if s[0] == '\r' && s.len() >= 2 && s[1] == '\n' {
                    normalize_endings_spec(s.subrange(2, s.len() as int))
                } else {
                    normalize_endings_spec(s.drop_first())
                };
                assert(r[i] == tail[i - 1]);
            }
        }
    }
}

/// Turn CRLF and lone CR line endings into LF.
pub fn normalize_line_endings(source: &str) -> (r: String)
    ensures
        r@ == normalize_endings_spec(source@),
{
    let s = chars_of(source);
    let mut out: Vec<char> = Vec::new();
    let mut i: usize = 0;
    assert(s@.subrange(0, s@.len() as int) =~= s@);
    assert(out@ + normalize_endings_spec(s@) =~= normalize_endings_spec(s@));
    while i < s.len()
        invariant
            i <= s@.len(),
            normalize_endings_spec(s@) == out@ + normalize_endings_spec(
                s@.subrange(i as int, s@.len() as int),
            ),
        decreases s@.len() - i,
    {
        let ghost rest = s@.subrange(i as int, s@.len() as int);
        if s[i] == '\r' && i + 1 < s.len() && s[i + 1] == '\n' {
            assert(rest.subrange(2, rest.len() as int) =~= s@.subrange(i + 2, s@.len() as int));
            out.push('\n');
            i = i + 2;
        } else if s[i] == '\r' {
            assert(rest.drop_first() =~= s@.subrange(i + 1, s@.len() as int));
            out.push('\n');
            i = i + 1;
        } else {
            assert(rest.drop_first() =~= s@.subrange(i + 1, s@.len() as int));
            out.push(s[i]);
            i = i + 1;
        }
        assert(normalize_endings_spec(s@) =~= out@ + normalize_endings_spec(
            s@.subrange(i as int, s@.len() as int),
        ));
    }
    assert(s@.subrange(0, s@.len() as int) =~= s@);
    assert(out@ =~= normalize_endings_spec(s@));
    string_from(out.as_slice())
}

/// `y` is empty or ends with a line feed.
pub open spec fn whole_lines(y: Seq<char>) -> bool {
    y.len() == 0 || y.last() == '\n'
}

/// Positions `i..=j` of `y` hold one line, its line feed included.
pub open spec fn line_span(y: Seq<char>, i: int, j: int) -> bool {
    &&& 0 <= i <= j < y.len()
    &&& i == 0 || y[i - 1] == '\n'
    &&& y[j] == '\n'
    &&& forall|k: int| i <= k < j ==> y[k] != '\n'
}

/// No line of `y` is a fence.
pub open spec fn fence_free(y: Seq<char>) -> bool {
    forall|i: int, j: int| line_span(y, i, j) ==> !is_fence(#[trigger] y.subrange(i, j + 1))
}

/// `y` without the line ending of its last line.
pub open spec fn without_last_ending(y: Seq<char>) -> Seq<char> {
    if y.len() == 0 {
        y
    } else if y.len() >= 2 && y[y.len() - 2] == '\r' {
        y.subrange(0, y.len() - 2)
    } else {
        y.drop_last()
    }
}

/// A source written as a fence, the metadata lines `y`, a fence, a blank line and `body`.
pub open spec fn framed(y: Seq<char>, body: Seq<char>) -> Seq<char> {
    seq!['-', '-', '-', '\n'] + y + seq!['-', '-', '-', '\n', '\n'] + body
}

proof fn lemma_closing_fence_of_framed(y: Seq<char>, body: Seq<char>, me: int)
    ensures
        scan_closing(framed(y, body), 4 + y.len() as int, me) == Some((me, y.len() + 9 as int)),
{
    let s = framed(y, body);
    let c: int = 4 + y.len() as int;
    lemma_line_end(s, c);
    assert(s[c] == '-' && s[c + 1] == '-' && s[c + 2] == '-' && s[c + 3] == '\n' && s[c + 4] == '\n');
    assert(line_end(s, c) == c + 3);
    assert(s.subrange(c, c + 4) =~= seq!['-', '-', '-', '\n']);
    assert(break_len_at(s, c + 4) == 1);
}

proof fn lemma_scan_framed(y: Seq<char>, body: Seq<char>, c: int, me: int)
    requires
        whole_lines(y),
        fence_free(y),
        4 <= c < 4 + y.len() as int,
        c == 4 || y[c - 5] == '\n',
    ensures
        scan_closing(framed(y, body), c, me) == Some((4 + without_last_ending(y).len() as int, y.len() + 9 as int)),
    decreases 4 + y.len() as int - c,
{
    let s = framed(y, body);
    assert forall|k: int| 4 <= k < 4 + y.len() as int implies s[k] == y[k - 4] by {}
    lemma_line_end(s, c);
    let e = line_end(s, c);
    assert(s[3 + y.len() as int] == '\n');
    assert(c <= e <= 3 + y.len() as int);
    let line = s.subrange(c, e + 1);
    assert(line =~= y.subrange(c - 4, e - 3));
    assert(y[e - 4] == s[e]);
    assert forall|k: int| c - 4 <= k < e - 4 implies y[k] != '\n' by {
        assert(s[k + 4] == y[k]);
    }
    assert(line_span(y, c - 4, e - 4));
    assert(!is_fence(y.subrange(c - 4, e - 4 + 1)));
    let me2 = e + 1 - ending_len(line);
    assert(scan_closing(s, c, me) == scan_closing(s, e + 1, me2));
    if e + 1 == 4 + y.len() as int {
        lemma_closing_fence_of_framed(y, body, me2);
        assert(me2 == 4 + without_last_ending(y).len() as int) by {
            if line.len() >= 2 && line[line.len() - 2] == '\r' {
                assert(y[y.len() - 2] == '\r');
            } else if y.len() >= 2 && y[y.len() - 2] == '\r' {
                assert(line.len() >= 2) by {
                    if line.len() == 1 {
                        assert(c - 4 == y.len() as int - 1);
                        if c > 4 {
                            assert(y[c - 5] == '\n');
                        }
                    }
                }
                assert(line[line.len() - 2] == y[y.len() - 2]);
            }
        }
    } else {
        lemma_scan_framed(y, body, e + 1, me2);
    }
}

/// What is written reads back: a source made of a fence, metadata lines none of which is a
/// fence, a fence, a blank line and a body splits into those metadata lines (without the
/// last line ending) and that body.
pub proof fn law_framed_source_reads_back(y: Seq<char>, body: Seq<char>)
    requires
        whole_lines(y),
        fence_free(y),
    ensures
        split_frontmatter_spec(framed(y, body)) == Ok::<(Seq<char>, Seq<char>), ParseErrorView>(
            (without_last_ending(y), body),
        ),
{
    let s = framed(y, body);
    lemma_line_end(s, 0);
    assert(s[0] == '-' && s[1] == '-' && s[2] == '-' && s[3] == '\n');
    assert(line_end(s, 0) == 3);
    assert(s.subrange(0, 4) =~= seq!['-', '-', '-', '\n']);
    if y.len() == 0 {
        lemma_closing_fence_of_framed(y, body, 4);
    } else {
        lemma_scan_framed(y, body, 4, 4);
    }
    assert(s.subrange(y.len() + 9 as int, s.len() as int) =~= body);
    assert(s.subrange(4, 4 + without_last_ending(y).len() as int) =~= without_last_ending(y));
}

/// Normalized text never mixes line endings, since it holds no carriage return.
pub proof fn law_normalized_endings_are_uniform(s: Seq<char>)
    ensures
        !mixed_line_endings(normalize_endings_spec(s)),
{
    lemma_normalized_has_no_cr(s);
}

impl crate::entry::Entry {
    /// Replace the Markdown body in an entry source; the frontmatter and its separator are
    /// kept exactly.
    pub fn replace_markdown_body(source: &str, body: &str) -> (r: Result<String, EntryParseError>)
        ensures
            match r {
                Ok(out) => replace_body_spec(source@, body@) == Ok::<Seq<char>, ParseErrorView>(out@),
                Err(e) => replace_body_spec(source@, body@) == Err::<Seq<char>, ParseErrorView>(e@),
            },
    {
        replace_markdown_body(source, body)
    }
}

} // verus!
