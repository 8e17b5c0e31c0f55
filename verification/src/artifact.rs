//! Lake-owned artifacts attached to entries.
//!
//! Entry artifacts live under `.artifacts/<entry-address>/` in the lake; the entry
//! Markdown files stay flat at the lake root.

use vstd::prelude::*;

use crate::address::EntryAddress;
use crate::text::{chars_of, has_char, join_with, owned, push_char, push_str, split_on, split_slice, string_from};

verus! {

/// Reserved lake directory that stores entry-owned artifacts.
pub const ARTIFACT_DIRECTORY_NAME: &'static str = ".artifacts";

/// The path component `.`.
pub open spec fn cur_dir() -> Seq<char> {
    seq!['.']
}

/// The path component `..`.
pub open spec fn parent_dir() -> Seq<char> {
    seq!['.', '.']
}

/// A component that a normalized artifact path keeps.
pub open spec fn normal_part(p: Seq<char>) -> bool {
    p.len() > 0 && p != cur_dir()
}

/// The components of `ps` that a normalized path keeps, in order.
pub open spec fn normal_parts(ps: Seq<Seq<char>>) -> Seq<Seq<char>>
    decreases ps.len(),
{
    if ps.len() == 0 {
        Seq::empty()
    } else if normal_part(ps.last()) {
        normal_parts(ps.drop_last()).push(ps.last())
    } else {
        normal_parts(ps.drop_last())
    }
}

/// Some component of `ps` is `..`.
pub open spec fn has_parent_part(ps: Seq<Seq<char>>) -> bool {
    exists|i: int| 0 <= i < ps.len() && ps[i] == parent_dir()
}

/// The path starts with a current-directory component, or names a parent directory.
pub open spec fn non_relative(s: Seq<char>) -> bool {
    let ps = split_on(s, '/');
    ps[0] == cur_dir() || has_parent_part(ps)
}

/// Normalized text of an accepted artifact path.
pub open spec fn normalized_artifact_path(s: Seq<char>) -> Seq<char> {
    join_with(normal_parts(split_on(s, '/')), seq!['/'])
}

/// A text that is its own normalized form: non-empty, relative, with only normal components.
pub open spec fn normalized_path_text(t: Seq<char>) -> bool {
    let ps = split_on(t, '/');
    &&& t.len() > 0
    &&& t[0] != '/'
    &&& forall|i: int|
        0 <= i < ps.len() ==> normal_part(#[trigger] ps[i]) && ps[i] != parent_dir()
}

/// Error raised when an artifact path cannot be represented in the lake.
#[derive(Clone, Debug, PartialEq, Eq)]
pub enum EntryArtifactPathError {
    /// Artifact paths must contain at least one component.
    Empty,
    /// Artifact paths are always relative to `.artifacts/<entry-address>/`.
    Absolute(String),
    /// Artifact paths must not contain parent, root, prefix, or current-directory components.
    NonRelative(String),
    /// Artifact paths must be valid UTF-8 so that they are stable ids.
    NonUtf8(String),
    /// Empty components cannot be represented in normalized artifact paths.
    EmptyComponent(String),
}

/// Text of an artifact path error.
pub open spec fn artifact_path_error_message(e: EntryArtifactPathError) -> Seq<char> {
    match e {
        EntryArtifactPathError::Empty => "artifact path must not be empty"@,
        EntryArtifactPathError::Absolute(p) => "artifact path must be relative: "@ + p@,
        EntryArtifactPathError::NonRelative(p) =>
            "artifact path must contain only normal relative components: "@ + p@,
        EntryArtifactPathError::NonUtf8(p) => "artifact path must be valid UTF-8: "@ + p@,
        EntryArtifactPathError::EmptyComponent(p) => "artifact path contains an empty component: "@
            + p@,
    }
}

impl EntryArtifactPathError {
    /// Human-readable text of the error.
    pub fn message(&self) -> (r: String)
        ensures
            r@ == artifact_path_error_message(*self),
    {
        let mut s = String::new();
        match self {
            EntryArtifactPathError::Empty => push_str(&mut s, "artifact path must not be empty"),
            EntryArtifactPathError::Absolute(p) => {
                push_str(&mut s, "artifact path must be relative: ");
                push_str(&mut s, p.as_str());
            },
            EntryArtifactPathError::NonRelative(p) => {
                push_str(&mut s, "artifact path must contain only normal relative components: ");
                push_str(&mut s, p.as_str());
            },
            EntryArtifactPathError::NonUtf8(p) => {
                push_str(&mut s, "artifact path must be valid UTF-8: ");
                push_str(&mut s, p.as_str());
            },
            EntryArtifactPathError::EmptyComponent(p) => {
                push_str(&mut s, "artifact path contains an empty component: ");
                push_str(&mut s, p.as_str());
            },
        }
        s
    }
}

/// Relative path of one artifact inside an entry artifact directory.
///
/// Invariant: the path is non-empty, relative, and holds only normal components,
/// stored with `/` separators.
#[derive(Debug)]
pub struct EntryArtifactPath {
    text: String,
}

impl View for EntryArtifactPath {
    type V = Seq<char>;

    closed spec fn view(&self) -> Seq<char> {
        self.text@
    }
}

/// Joining the pieces of a split restores the text.
pub proof fn lemma_join_split(t: Seq<char>, c: char)
    ensures
        join_with(split_on(t, c), seq![c]) == t,
    decreases t.len(),
{
    crate::text::lemma_split_on_nonempty(t, c);
    if t.len() == 0 {
        assert(split_on(t, c) =~= seq![Seq::<char>::empty()]);
        assert(t =~= Seq::<char>::empty());
    } else {
        let init = split_on(t.drop_last(), c);
        lemma_join_split(t.drop_last(), c);
        crate::text::lemma_split_on_nonempty(t.drop_last(), c);
        if t.last() == c {
            let ps = init.push(Seq::<char>::empty());
            assert(ps.drop_last() =~= init);
            assert(join_with(ps, seq![c]) == join_with(init, seq![c]) + seq![c] + Seq::<char>::empty());
            assert(t =~= t.drop_last() + seq![c] + Seq::<char>::empty());
        } else {
            let ps = init.update(init.len() - 1, init.last().push(t.last()));
            lemma_join_update_last(init, c, t.last());
            assert(t =~= t.drop_last().push(t.last()));
        }
    }
}

/// Growing the last piece grows the joined text at its end.
proof fn lemma_join_update_last(ps: Seq<Seq<char>>, c: char, x: char)
    requires
        ps.len() >= 1,
    ensures
        join_with(ps.update(ps.len() - 1, ps.last().push(x)), seq![c]) == join_with(ps, seq![c]).push(x),
{
    let qs = ps.update(ps.len() - 1, ps.last().push(x));
    if ps.len() == 1 {
        assert(qs[0] == ps[0].push(x));
    } else {
        assert(qs.drop_last() =~= ps.drop_last());
        assert(join_with(qs, seq![c]) == join_with(ps.drop_last(), seq![c]) + seq![c] + ps.last().push(x));
        assert(join_with(ps.drop_last(), seq![c]) + seq![c] + ps.last().push(x) =~= (join_with(
            ps.drop_last(),
            seq![c],
        ) + seq![c] + ps.last()).push(x));
    }
}

/// A text without `c` is a single piece.
proof fn lemma_split_single(p: Seq<char>, c: char)
    requires
        !has_char(p, c),
    ensures
        split_on(p, c) == seq![p],
    decreases p.len(),
{
    if p.len() == 0 {
        assert(p =~= Seq::<char>::empty());
    } else {
        assert(!has_char(p.drop_last(), c)) by {
            if has_char(p.drop_last(), c) {
                let i = choose|i: int| 0 <= i < p.drop_last().len() && p.drop_last()[i] == c;
                assert(p[i] == c);
            }
        }
        lemma_split_single(p.drop_last(), c);
        assert(p.last() != c) by {
            assert(p[p.len() - 1] == p.last());
        }
        assert(p.drop_last().push(p.last()) =~= p);
    }
}

/// Splitting after a separator starts a new piece.
proof fn lemma_split_after_sep(a: Seq<char>, b: Seq<char>, c: char)
    requires
        !has_char(b, c),
    ensures
        split_on(a.push(c) + b, c) == split_on(a, c).push(b),
    decreases b.len(),
{
    crate::text::lemma_split_on_nonempty(a, c);
    if b.len() == 0 {
        assert(a.push(c) + b =~= a.push(c));
        assert((a.push(c) + b).drop_last() =~= a);
        assert(b =~= Seq::<char>::empty());
    } else {
        let b1 = b.drop_last();
        assert(!has_char(b1, c)) by {
            if has_char(b1, c) {
                let i = choose|i: int| 0 <= i < b1.len() && b1[i] == c;
                assert(b[i] == c);
            }
        }
        lemma_split_after_sep(a, b1, c);
        assert((a.push(c) + b).drop_last() =~= a.push(c) + b1);
        assert((a.push(c) + b).last() == b.last());
        assert(b.last() != c) by {
            assert(b[b.len() - 1] == b.last());
        }
        let init = split_on(a, c).push(b1);
        assert(b1.push(b.last()) =~= b);
        assert(init.update(init.len() - 1, init.last().push(b.last())) =~= split_on(a, c).push(b));
    }
}

/// Joining pieces without the separator and splitting again gives the pieces back.
pub proof fn lemma_split_join(ps: Seq<Seq<char>>, c: char)
    requires
        ps.len() >= 1,
        forall|i: int| 0 <= i < ps.len() ==> !has_char(#[trigger] ps[i], c),
    ensures
        split_on(join_with(ps, seq![c]), c) == ps,
    decreases ps.len(),
{
    if ps.len() == 1 {
        lemma_split_single(ps[0], c);
        assert(ps =~= seq![ps[0]]);
    } else {
        let init = ps.drop_last();
        assert forall|i: int| 0 <= i < init.len() implies !has_char(#[trigger] init[i], c) by {
            assert(init[i] == ps[i]);
        }
        lemma_split_join(init, c);
        let j = join_with(init, seq![c]);
        assert(j + seq![c] + ps.last() =~= j.push(c) + ps.last());
        assert(!has_char(ps.last(), c)) by {
            assert(ps[ps.len() - 1] == ps.last());
        }
        lemma_split_after_sep(j, ps.last(), c);
        assert(init.push(ps.last()) =~= ps);
    }
}

/// No piece of a split holds the separator.
pub proof fn lemma_split_parts_free(t: Seq<char>, c: char)
    ensures
        forall|i: int|
            0 <= i < split_on(t, c).len() ==> !has_char(#[trigger] split_on(t, c)[i], c),
    decreases t.len(),
{
    if t.len() > 0 {
        lemma_split_parts_free(t.drop_last(), c);
        crate::text::lemma_split_on_nonempty(t.drop_last(), c);
        let init = split_on(t.drop_last(), c);
        let ps = split_on(t, c);
        assert forall|i: int| 0 <= i < ps.len() implies !has_char(#[trigger] ps[i], c) by {
            if t.last() == c {
                if i < init.len() {
                    assert(ps[i] == init[i]);
                } else {
                    assert(ps[i] =~= Seq::<char>::empty());
                }
            } else {
                if i < init.len() - 1 {
                    assert(ps[i] == init[i]);
                } else {
                    assert(ps[i] == init.last().push(t.last()));
                    assert(!has_char(init[init.len() - 1], c));
                    if has_char(ps[i], c) {
                        let k = choose|k: int| 0 <= k < ps[i].len() && ps[i][k] == c;
                        if k < init.last().len() {
                            assert(init.last()[k] == c);
                        }
                    }
                }
            }
        }
    }
}

/// The parts that a normalized path keeps are a subsequence of the parts, each normal.
proof fn lemma_normal_parts(ps: Seq<Seq<char>>)
    ensures
        forall|i: int|
            0 <= i < normal_parts(ps).len() ==> normal_part(#[trigger] normal_parts(ps)[i])
                && exists|j: int| 0 <= j < ps.len() && ps[j] == normal_parts(ps)[i],
        (forall|j: int| 0 <= j < ps.len() ==> normal_part(#[trigger] ps[j])) ==> normal_parts(ps)
            == ps,
    decreases ps.len(),
{
    if ps.len() > 0 {
        lemma_normal_parts(ps.drop_last());
        let r = normal_parts(ps);
        let r0 = normal_parts(ps.drop_last());
        assert forall|i: int| 0 <= i < r.len() implies normal_part(#[trigger] r[i]) && exists|j: int|
            0 <= j < ps.len() && ps[j] == r[i] by {
            if i < r0.len() {
                assert(r[i] == r0[i]);
                let j = choose|j: int| 0 <= j < ps.drop_last().len() && ps.drop_last()[j] == r0[i];
                assert(ps[j] == r[i]);
            } else {
                assert(r[i] == ps.last());
                assert(ps[ps.len() - 1] == r[i]);
            }
        }
        if forall|j: int| 0 <= j < ps.len() ==> normal_part(#[trigger] ps[j]) {
            assert forall|j: int| 0 <= j < ps.drop_last().len() implies normal_part(
                #[trigger] ps.drop_last()[j],
            ) by {
                assert(ps.drop_last()[j] == ps[j]);
            }
            assert(normal_part(ps[ps.len() - 1]));
            assert(ps.drop_last().push(ps.last()) =~= ps);
        }
    } else {
        assert(normal_parts(ps) =~= ps);
    }
}

/// The joined text starts with the first character of the first piece.
proof fn lemma_join_first(ps: Seq<Seq<char>>, c: char)
    requires
        ps.len() >= 1,
        ps[0].len() > 0,
    ensures
        join_with(ps, seq![c]).len() > 0,
        join_with(ps, seq![c])[0] == ps[0][0],
    decreases ps.len(),
{
    if ps.len() > 1 {
        assert(ps.drop_last()[0] == ps[0]);
        lemma_join_first(ps.drop_last(), c);
    }
}

/// The normalized form of a text without current- or parent-directory components is a
/// normalized text.
proof fn lemma_normalized_valid(s: Seq<char>)
    requires
        s.len() > 0,
        s[0] != '/',
        !non_relative(s),
    ensures
        normalized_path_text(normalized_artifact_path(s)),
        normal_parts(split_on(s, '/')).len() >= 1,
{
    let ps = split_on(s, '/');
    crate::text::lemma_split_on_nonempty(s, '/');
    lemma_normal_parts(ps);
    lemma_split_parts_free(s, '/');
    let np = normal_parts(ps);
    // The first piece is non-empty and kept.
    assert(ps[0].len() > 0) by {
        lemma_first_piece(s, '/');
    }
    assert(normal_part(ps[0]));
    lemma_normal_parts_keep_first(ps);
    assert forall|i: int| 0 <= i < np.len() implies !has_char(#[trigger] np[i], '/') by {
        let j = choose|j: int| 0 <= j < ps.len() && ps[j] == np[i];
        assert(!has_char(ps[j], '/'));
    }
    lemma_split_join(np, '/');
    lemma_join_first(np, '/');
    let t = join_with(np, seq!['/']);
    assert(t[0] != '/') by {
        assert(np[0].len() > 0);
        assert(!has_char(np[0], '/'));
        assert(np[0][0] != '/') by {
            if np[0][0] == '/' {
                assert(has_char(np[0], '/'));
            }
        }
    }
    assert forall|i: int| 0 <= i < split_on(t, '/').len() implies normal_part(
        #[trigger] split_on(t, '/')[i],
    ) && split_on(t, '/')[i] != parent_dir() by {
        assert(split_on(t, '/')[i] == np[i]);
        let j = choose|j: int| 0 <= j < ps.len() && ps[j] == np[i];
        if np[i] == parent_dir() {
            assert(has_parent_part(ps));
        }
    }
}

/// A text that does not start with `c` has a non-empty first piece.
proof fn lemma_first_piece(s: Seq<char>, c: char)
    requires
        s.len() > 0,
        s[0] != c,
    ensures
        split_on(s, c).len() >= 1,
        split_on(s, c)[0].len() > 0,
    decreases s.len(),
{
    crate::text::lemma_split_on_nonempty(s, c);
    let init = split_on(s.drop_last(), c);
    if s.len() > 1 {
        assert(s.drop_last()[0] == s[0]);
        lemma_first_piece(s.drop_last(), c);
        crate::text::lemma_split_on_nonempty(s.drop_last(), c);
        if s.last() == c {
            assert(split_on(s, c)[0] == init[0]);
        } else if init.len() == 1 {
            assert(split_on(s, c)[0] == init[0].push(s.last()));
        } else {
            assert(split_on(s, c)[0] == init[0]);
        }
    } else {
        assert(s.drop_last() =~= Seq::<char>::empty());
        assert(init =~= seq![Seq::<char>::empty()]);
        assert(s.last() == s[0]);
        assert(split_on(s, c)[0] == init[0].push(s.last()));
    }
}

/// When the first piece is kept, it stays first.
proof fn lemma_normal_parts_keep_first(ps: Seq<Seq<char>>)
    requires
        ps.len() >= 1,
        normal_part(ps[0]),
    ensures
        normal_parts(ps).len() >= 1,
        normal_parts(ps)[0] == ps[0],
    decreases ps.len(),
{
    if ps.len() == 1 {
        assert(ps.drop_last() =~= Seq::<Seq<char>>::empty());
        assert(ps.last() == ps[0]);
    } else {
        assert(ps.drop_last()[0] == ps[0]);
        lemma_normal_parts_keep_first(ps.drop_last());
    }
}

/// The result of `EntryArtifactPath::new` on a text.
pub open spec fn artifact_path_outcome(s: Seq<char>) -> Option<Seq<char>> {
    if s.len() == 0 || s[0] == '/' || non_relative(s) {
        None
    } else {
        Some(normalized_artifact_path(s))
    }
}

impl EntryArtifactPath {
    #[verifier::type_invariant]
    closed spec fn well_formed(self) -> bool {
        normalized_path_text(self.text@)
    }

    /// A validated artifact-relative path, with empty and `.` components dropped.
    pub fn new(path: &str) -> (r: Result<Self, EntryArtifactPathError>)
        ensures
            path@.len() == 0 ==> r matches Err(EntryArtifactPathError::Empty),
            path@.len() > 0 && path@[0] == '/' ==> (r matches Err(
                EntryArtifactPathError::Absolute(p),
            ) && p@ == path@),
            path@.len() > 0 && path@[0] != '/' && non_relative(path@) ==> (r matches Err(
                EntryArtifactPathError::NonRelative(p),
            ) && p@ == path@),
            path@.len() > 0 && path@[0] != '/' && !non_relative(path@) ==> (r matches Ok(a) && a@
                == normalized_artifact_path(path@)),
            r matches Ok(a) ==> normalized_path_text(a@),
    {
        let chars = chars_of(path);
        if chars.len() == 0 {
            return Err(EntryArtifactPathError::Empty);
        }
        if chars[0] == '/' {
            return Err(EntryArtifactPathError::Absolute(owned(path)));
        }
        let parts = split_slice(chars.as_slice(), '/');
        let ghost ps = split_on(path@, '/');
        assert(parts@.map_values(|p: Vec<char>| p@) == ps);
        proof {
            crate::text::lemma_split_on_nonempty(path@, '/');
        }
        assert(parts@.len() == ps.len());
        assert(parts@[0]@ == ps[0]);
        if parts[0].len() == 1 && parts[0][0] == '.' {
            assert(ps[0] =~= cur_dir());
            return Err(EntryArtifactPathError::NonRelative(owned(path)));
        }
        assert(ps[0] != cur_dir());
        let mut text = String::new();
        let mut kept: bool = false;
        let mut i: usize = 0;
        assert(ps.take(0) =~= Seq::<Seq<char>>::empty());
        while i < parts.len()
            invariant
                i <= ps.len(),
                path@.len() > 0,
                path@[0] != '/',
                ps == split_on(path@, '/'),
                parts@.len() == ps.len(),
                forall|k: int| 0 <= k < ps.len() ==> (#[trigger] parts@[k])@ == ps[k],
                forall|k: int| 0 <= k < i ==> #[trigger] ps[k] != parent_dir(),
                kept == (normal_parts(ps.take(i as int)).len() > 0),
                text@ == join_with(normal_parts(ps.take(i as int)), seq!['/']),
            decreases ps.len() - i,
        {
            let part = &parts[i];
            assert(part@ == ps[i as int]);
            assert(ps.take(i + 1).drop_last() =~= ps.take(i as int));
            assert(ps.take(i + 1).last() == ps[i as int]);
            if part.len() == 2 && part[0] == '.' && part[1] == '.' {
                assert(part@ =~= parent_dir());
                assert(has_parent_part(ps));
                return Err(EntryArtifactPathError::NonRelative(owned(path)));
            }
            let is_dot = part.len() == 1 && part[0] == '.';
            assert(is_dot == (part@ == cur_dir())) by {
                if part@ == cur_dir() {
                    assert(part@[0] == '.');
                }
                if is_dot {
                    assert(part@ =~= cur_dir());
                }
            }
            if part.len() > 0 && !is_dot {
                let piece = string_from(part.as_slice());
                let ghost before = normal_parts(ps.take(i as int));
                if kept {
                    push_char(&mut text, '/');
                    push_str(&mut text, piece.as_str());
                    assert(before.push(part@).drop_last() =~= before);
                    assert(text@ =~= join_with(before, seq!['/']) + seq!['/'] + part@);
                } else {
                    push_str(&mut text, piece.as_str());
                    assert(before.push(part@) =~= seq![part@]);
                    assert(text@ =~= part@);
                }
                kept = true;
            }
            i = i + 1;
        }
        assert(ps.take(i as int) =~= ps);
        assert(!has_parent_part(ps));
        assert(!non_relative(path@));
        proof {
            lemma_normalized_valid(path@);
        }
        Ok(EntryArtifactPath { text })
    }

    /// The normalized path text.
    pub fn as_str(&self) -> (r: &str)
        ensures
            r@ == self@,
            normalized_path_text(self@),
    {
        proof {
            use_type_invariant(self);
        }
        self.text.as_str()
    }

    /// The path components in order.
    pub fn components(&self) -> (r: Vec<String>)
        ensures
            crate::text::strings_view(r@) == split_on(self@, '/'),
    {
        let chars = chars_of(self.text.as_str());
        let parts = split_slice(chars.as_slice(), '/');
        let mut out: Vec<String> = Vec::new();
        let mut i: usize = 0;
        while i < parts.len()
            invariant
                i <= parts@.len(),
                parts@.map_values(|p: Vec<char>| p@) == split_on(self@, '/'),
                crate::text::strings_view(out@) == parts@.map_values(|p: Vec<char>| p@).take(
                    i as int,
                ),
            decreases parts@.len() - i,
        {
            let ghost prev = out@;
            out.push(string_from(parts[i].as_slice()));
            assert(crate::text::strings_view(out@) =~= crate::text::strings_view(prev).push(parts@[i as int]@));
            assert(parts@.map_values(|p: Vec<char>| p@)[i as int] == parts@[i as int]@);
            assert(crate::text::strings_view(out@) =~= parts@.map_values(|p: Vec<char>| p@).take(
                i + 1,
            ));
            i = i + 1;
        }
        assert(parts@.map_values(|p: Vec<char>| p@).take(i as int) =~= parts@.map_values(
            |p: Vec<char>| p@,
        ));
        out
    }
}

impl Clone for EntryArtifactPath {
    fn clone(&self) -> (r: Self)
        ensures
            r@ == self@,
    {
        proof {
            use_type_invariant(self);
        }
        EntryArtifactPath { text: owned(self.text.as_str()) }
    }
}

/// A normalized path text is accepted as it is: parsing the text of an artifact path gives
/// the same path back.
pub proof fn law_artifact_path_normalization_is_idempotent(t: Seq<char>)
    requires
        normalized_path_text(t),
    ensures
        artifact_path_outcome(t) == Some(t),
{
    let ps = split_on(t, '/');
    crate::text::lemma_split_on_nonempty(t, '/');
    assert(ps[0] != cur_dir());
    assert(!has_parent_part(ps));
    lemma_normal_parts(ps);
    lemma_join_split(t, '/');
}

/// One lake-owned artifact attached to an entry.
///
/// `owner` names the entry whose `.artifacts/<entry-address>/` tree holds `path`.
#[derive(Debug)]
pub struct EntryArtifact {
    /// Entry that owns this artifact.
    pub owner: EntryAddress,
    /// Path relative to the owning entry artifact directory.
    pub path: EntryArtifactPath,
    /// Opaque artifact bytes.
    pub content: Vec<u8>,
}

impl EntryArtifact {
    /// One typed entry artifact.
    pub fn new(owner: EntryAddress, path: EntryArtifactPath, content: Vec<u8>) -> (r: Self)
        ensures
            r.owner@ == owner@,
            r.path@ == path@,
            r.content@ == content@,
    {
        EntryArtifact { owner, path, content }
    }
}

} // verus!
