//! Moving a configured path (the lake or Frost) to a new place, with rollback.
//!
//! The file-system work is done by the caller; [`PathMove`] decides, one event at a time,
//! which operation comes next. A destination inside the source is reached through a
//! staging sibling of the source, and a failure after the source has left its place puts
//! it back before the failure is reported.

use vstd::prelude::*;

use crate::address::Order;
use crate::artifact::{cur_dir, parent_dir};
use crate::path::{components_of, compare_components, parts_view, path_components, root_dir};
use crate::text::{chars_of, decimal, join_with, push_char, push_decimal, push_str, slice_eq, slice_range, string_from};

verus! {

/// Number of staging names tried before a move gives up.
pub const STAGING_ATTEMPTS: u32 = 1000;

/// Text of a component list, as a path built by pushing the components.
pub open spec fn render(cs: Seq<Seq<char>>) -> Seq<char> {
    if cs.len() > 0 && cs[0] == root_dir() {
        root_dir() + join_with(cs.drop_first(), seq!['/'])
    } else {
        join_with(cs, seq!['/'])
    }
}

/// `p` begins with the components of `prefix`.
pub open spec fn starts_with(p: Seq<Seq<char>>, prefix: Seq<Seq<char>>) -> bool {
    prefix.len() <= p.len() && p.take(prefix.len() as int) == prefix
}

/// The parent of a component list: all but its last component, unless it ends at the root.
pub open spec fn parent_parts(cs: Seq<Seq<char>>) -> Option<Seq<Seq<char>>> {
    if cs.len() == 0 || cs.last() == root_dir() {
        None
    } else {
        Some(cs.drop_last())
    }
}

/// The parent, where it is not empty.
pub open spec fn nonempty_parent(cs: Seq<Seq<char>>) -> Option<Seq<Seq<char>>> {
    match parent_parts(cs) {
        Some(p) => if p.len() > 0 {
            Some(p)
        } else {
            None
        },
        None => None,
    }
}

/// Directory that holds staging names for a source: its parent, or the current directory.
pub open spec fn staging_dir(cs: Seq<Seq<char>>) -> Seq<Seq<char>> {
    match nonempty_parent(cs) {
        Some(p) => p,
        None => seq![cur_dir()],
    }
}

/// A component that names a file (not the root, `.` or `..`).
pub open spec fn names_file(c: Seq<char>) -> bool {
    c != root_dir() && c != cur_dir() && c != parent_dir()
}

/// File name of the source that staging names carry.
pub open spec fn source_label(cs: Seq<Seq<char>>) -> Seq<char> {
    file_label(cs, "path"@)
}

/// The staging name tried at one attempt.
pub open spec fn staging_name(cs: Seq<Seq<char>>, pid: nat, attempt: nat) -> Seq<char> {
    ".sirno-move-"@ + source_label(cs) + "-"@ + decimal(pid) + "-"@ + decimal(attempt)
}

/// Kind of a configured-path move.
#[derive(Clone, Copy, Debug, PartialEq, Eq)]
pub enum ConfiguredPathMove {
    /// Source and destination name the same path: nothing moves.
    Unchanged,
    /// The destination lies outside the source: one rename.
    Direct,
    /// The destination lies inside the source: the source goes through a staging path.
    Nested,
}

impl ConfiguredPathMove {
    /// Whether anything moves.
    pub open spec fn spec_moved(self) -> bool {
        !(self is Unchanged)
    }

    /// Whether anything moves.
    pub fn moved(self) -> (r: bool)
        ensures
            r == self.spec_moved(),
    {
        match self {
            ConfiguredPathMove::Unchanged => false,
            _ => true,
        }
    }
}

/// Kind of the move from path `s` to path `d`.
pub open spec fn move_kind(s: Seq<char>, d: Seq<char>) -> ConfiguredPathMove {
    let cs = path_components(s);
    let cd = path_components(d);
    if cs == cd {
        ConfiguredPathMove::Unchanged
    } else if starts_with(cd, cs) {
        ConfiguredPathMove::Nested
    } else {
        ConfiguredPathMove::Direct
    }
}

proof fn lemma_join_step(cs: Seq<Seq<char>>, start: int, i: int)
    requires
        0 <= start <= i < cs.len(),
    ensures
        join_with(cs.subrange(start, i + 1), seq!['/']) == if i == start {
            cs[i]
        } else {
            join_with(cs.subrange(start, i), seq!['/']) + seq!['/'] + cs[i]
        },
{
    let t = cs.subrange(start, i + 1);
    assert(t.drop_last() =~= cs.subrange(start, i));
    assert(t.last() == cs[i]);
}

/// Text of a component list.
pub fn render_parts(parts: &Vec<Vec<char>>) -> (r: String)
    ensures
        r@ == render(parts_view(parts@)),
{
    let ghost cs = parts_view(parts@);
    let mut out = String::new();
    let mut start: usize = 0;
    if parts.len() > 0 && parts[0].len() == 1 && parts[0][0] == '/' {
        assert(cs[0] =~= root_dir());
        push_char(&mut out, '/');
        start = 1;
    }
    let ghost head = out@;
    assert(start == 1 <==> (cs.len() > 0 && cs[0] == root_dir()));
    let mut i: usize = start;
    assert(cs.subrange(start as int, i as int) =~= Seq::<Seq<char>>::empty());
    while i < parts.len()
        invariant
            cs == parts_view(parts@),
            start <= i <= parts@.len(),
            start <= 1,
            out@ == head + join_with(cs.subrange(start as int, i as int), seq!['/']),
        decreases parts@.len() - i,
    {
        proof {
            lemma_join_step(cs, start as int, i as int);
        }
        if i > start {
            push_char(&mut out, '/');
        }
        let piece = string_from(parts[i].as_slice());
        push_str(&mut out, piece.as_str());
        i = i + 1;
    }
    proof {
        if start == 1 {
            assert(cs.subrange(1, cs.len() as int) =~= cs.drop_first());
            assert(head =~= root_dir());
        } else {
            assert(cs.subrange(0, cs.len() as int) =~= cs);
            assert(head =~= Seq::<char>::empty());
        }
    }
    out
}

/// Whether `p` begins with the components of `prefix`.
pub fn parts_start_with(p: &Vec<Vec<char>>, prefix: &Vec<Vec<char>>) -> (r: bool)
    ensures
        r == starts_with(parts_view(p@), parts_view(prefix@)),
{
    if prefix.len() > p.len() {
        return false;
    }
    let mut i: usize = 0;
    while i < prefix.len()
        invariant
            prefix@.len() <= p@.len(),
            i <= prefix@.len(),
            forall|j: int| 0 <= j < i ==> parts_view(p@)[j] == parts_view(prefix@)[j],
        decreases prefix@.len() - i,
    {
        if !slice_eq(p[i].as_slice(), prefix[i].as_slice()) {
            assert(parts_view(p@).take(prefix@.len() as int)[i as int] != parts_view(prefix@)[i as int]);
            return false;
        }
        i = i + 1;
    }
    assert(parts_view(p@).take(prefix@.len() as int) =~= parts_view(prefix@));
    true
}

/// Whether two component lists are equal.
pub fn parts_equal(a: &Vec<Vec<char>>, b: &Vec<Vec<char>>) -> (r: bool)
    ensures
        r == (parts_view(a@) == parts_view(b@)),
{
    match compare_components(a, b) {
        Order::Equal => true,
        _ => false,
    }
}

/// The first `n` components.
pub fn take_parts(parts: &Vec<Vec<char>>, n: usize) -> (r: Vec<Vec<char>>)
    requires
        n <= parts@.len(),
    ensures
        parts_view(r@) == parts_view(parts@).take(n as int),
{
    let mut out: Vec<Vec<char>> = Vec::new();
    let mut i: usize = 0;
    while i < n
        invariant
            n <= parts@.len(),
            i <= n,
            parts_view(out@) == parts_view(parts@).take(i as int),
        decreases n - i,
    {
        let piece = slice_range(parts[i].as_slice(), 0, parts[i].len());
        assert(piece@ =~= parts@[i as int]@);
        let ghost before = out@;
        assert(parts_view(before).len() == before.len());
        out.push(piece);
        proof {
            assert(parts_view(out@).len() == out@.len());
            let t = parts_view(parts@).take(i + 1);
            assert forall|j: int| 0 <= j < i + 1 implies #[trigger] parts_view(out@)[j] == t[j] by {
                if j < i {
                    assert(out@[j] == before[j]);
                    assert(parts_view(before)[j] == parts_view(parts@).take(i as int)[j]);
                }
            }
            assert(parts_view(out@) =~= t);
        }
        i = i + 1;
    }
    out
}

/// The parent of a component list.
pub fn parent_of_parts(parts: &Vec<Vec<char>>) -> (r: Option<Vec<Vec<char>>>)
    ensures
        match r {
            Some(p) => parent_parts(parts_view(parts@)) == Some(parts_view(p@)),
            None => parent_parts(parts_view(parts@)) is None,
        },
{
    let n = parts.len();
    if n == 0 {
        return None;
    }
    let last = &parts[n - 1];
    let is_root = last.len() == 1 && last[0] == '/';
    proof {
        let cs = parts_view(parts@);
        assert(cs.last() == last@);
        if is_root {
            assert(cs.last() =~= root_dir());
        } else {
            assert(cs.last() != root_dir()) by {
                if cs.last() == root_dir() {
                    assert(last@.len() == 1 && last@[0] == '/');
                }
            }
        }
    }
    if is_root {
        return None;
    }
    let p = take_parts(parts, n - 1);
    assert(parts_view(parts@).take(n - 1) =~= parts_view(parts@).drop_last());
    Some(p)
}

/// The parent of a component list, where it is not empty.
pub fn nonempty_parent_parts(parts: &Vec<Vec<char>>) -> (r: Option<Vec<Vec<char>>>)
    ensures
        match r {
            Some(p) => nonempty_parent(parts_view(parts@)) == Some(parts_view(p@)),
            None => nonempty_parent(parts_view(parts@)) is None,
        },
{
    match parent_of_parts(parts) {
        Some(p) => if p.len() > 0 {
            Some(p)
        } else {
            None
        },
        None => None,
    }
}

/// The last component where it names a file, else `fallback`.
pub open spec fn file_label(cs: Seq<Seq<char>>, fallback: Seq<char>) -> Seq<char> {
    if cs.len() > 0 && names_file(cs.last()) {
        cs.last()
    } else {
        fallback
    }
}

/// The last component where it names a file, else `fallback`.
pub fn file_label_of(parts: &Vec<Vec<char>>, fallback: &str) -> (r: String)
    ensures
        r@ == file_label(parts_view(parts@), fallback@),
{
    let n = parts.len();
    if n > 0 {
        let last = &parts[n - 1];
        let special = (last.len() == 1 && (last[0] == '/' || last[0] == '.')) || (last.len() == 2 && last[0]
            == '.' && last[1] == '.');
        proof {
            let c = parts_view(parts@).last();
            assert(c == last@);
            if special {
                assert(c =~= root_dir() || c =~= cur_dir() || c =~= parent_dir());
            } else {
                assert(c != root_dir() && c != cur_dir() && c != parent_dir()) by {
                    if c == root_dir() || c == cur_dir() {
                        assert(c.len() == 1);
                    }
                    if c == parent_dir() {
                        assert(c.len() == 2);
                    }
                }
            }
        }
        if !special {
            return string_from(last.as_slice());
        }
    }
    fallback.to_string()
}

/// Append one component.
pub fn push_part(parts: &mut Vec<Vec<char>>, part: Vec<char>)
    ensures
        parts_view(final(parts)@) == parts_view(old(parts)@).push(part@),
{
    let ghost before = parts@;
    assert(parts_view(before).len() == before.len());
    parts.push(part);
    assert(parts_view(parts@).len() == parts@.len());
    assert forall|j: int| 0 <= j < parts@.len() implies #[trigger] parts_view(parts@)[j] == parts_view(before).push(
        part@,
    )[j] by {
        if j < before.len() {
            assert(parts@[j] == before[j]);
        }
    }
    assert(parts_view(parts@) =~= parts_view(before).push(part@));
}

/// A planned move: source path, destination path and the process id that staging names carry.
pub struct MovePlan {
    pub source: Seq<char>,
    pub destination: Seq<char>,
    pub pid: nat,
}

/// Components of the source.
pub open spec fn source_parts(p: MovePlan) -> Seq<Seq<char>> {
    path_components(p.source)
}

/// Components of the destination.
pub open spec fn destination_parts(p: MovePlan) -> Seq<Seq<char>> {
    path_components(p.destination)
}

/// The staging path tried at one attempt: a sibling of the source.
pub open spec fn candidate(p: MovePlan, attempt: nat) -> Seq<char> {
    render(staging_dir(source_parts(p)).push(staging_name(source_parts(p), p.pid, attempt)))
}

/// Directory in which staging paths are tried.
pub open spec fn staging_near(p: MovePlan) -> Seq<char> {
    render(staging_dir(source_parts(p)))
}

/// Error text when every staging attempt is taken.
pub open spec fn staging_unavailable(p: MovePlan) -> Seq<char> {
    "move staging paths are unavailable near "@ + staging_near(p)
}

/// Text of the destination's parent (empty where it has none).
pub open spec fn destination_parent_text(p: MovePlan) -> Seq<char> {
    match nonempty_parent(destination_parts(p)) {
        Some(q) => render(q),
        None => Seq::empty(),
    }
}

/// Number of directories removed when a nested move is undone: the destination's
/// ancestors from its parent up to the source.
pub open spec fn cleanup_count(p: MovePlan) -> nat {
    if destination_parts(p).len() > source_parts(p).len() {
        (destination_parts(p).len() - source_parts(p).len()) as nat
    } else {
        0
    }
}

/// Components of the `k`-th directory removed when a nested move is undone.
pub open spec fn cleanup_parts(p: MovePlan, k: int) -> Seq<Seq<char>> {
    destination_parts(p).take(destination_parts(p).len() - 1 - k)
}

/// Text of the `k`-th directory removed when a nested move is undone.
pub open spec fn cleanup_dir(p: MovePlan, k: int) -> Seq<char> {
    render(cleanup_parts(p, k))
}

/// Why a move failed.
#[derive(Debug)]
pub enum PathMoveError {
    /// The destination already exists.
    DestinationExists(String),
    /// The destination could not be inspected.
    ReadDestination { path: String, error: String },
    /// The destination's parent directory could not be created.
    CreateParent { path: String, error: String },
    /// No staging path could be prepared next to the source.
    PrepareStaging { path: String, error: String },
    /// A rename failed; the source is in its place.
    MovePath { source_path: String, destination_path: String, error: String },
    /// A rename failed and putting the source back from its staging path failed too.
    MovePathRollback {
        source_path: String,
        destination_path: String,
        staging_path: String,
        error: String,
        rollback: String,
    },
    /// The config could not be written; the source is in its place.
    Config(String),
    /// The config could not be written and putting the source back failed.
    ConfigRollback { source_path: String, destination_path: String, error: String, rollback: String },
}

/// Model of a move error, over texts.
pub enum MoveErrorView {
    DestinationExists(Seq<char>),
    ReadDestination(Seq<char>, Seq<char>),
    CreateParent(Seq<char>, Seq<char>),
    PrepareStaging(Seq<char>, Seq<char>),
    MovePath(Seq<char>, Seq<char>, Seq<char>),
    MovePathRollback(Seq<char>, Seq<char>, Seq<char>, Seq<char>, Seq<char>),
    Config(Seq<char>),
    ConfigRollback(Seq<char>, Seq<char>, Seq<char>, Seq<char>),
}

impl View for PathMoveError {
    type V = MoveErrorView;

    open spec fn view(&self) -> MoveErrorView {
        match self {
            PathMoveError::DestinationExists(d) => MoveErrorView::DestinationExists(d@),
            PathMoveError::ReadDestination { path, error } => MoveErrorView::ReadDestination(path@, error@),
            PathMoveError::CreateParent { path, error } => MoveErrorView::CreateParent(path@, error@),
            PathMoveError::PrepareStaging { path, error } => MoveErrorView::PrepareStaging(path@, error@),
            PathMoveError::MovePath { source_path, destination_path, error } => MoveErrorView::MovePath(
                source_path@,
                destination_path@,
                error@,
            ),
            PathMoveError::MovePathRollback { source_path, destination_path, staging_path, error, rollback } =>
                MoveErrorView::MovePathRollback(source_path@, destination_path@, staging_path@, error@, rollback@),
            PathMoveError::Config(e) => MoveErrorView::Config(e@),
            PathMoveError::ConfigRollback { source_path, destination_path, error, rollback } =>
                MoveErrorView::ConfigRollback(source_path@, destination_path@, error@, rollback@),
        }
    }
}

/// Human-readable description of a move error.
pub open spec fn move_error_text(e: MoveErrorView) -> Seq<char> {
    match e {
        MoveErrorView::DestinationExists(d) => "move destination already exists: "@ + d,
        MoveErrorView::ReadDestination(d, _) => "failed to inspect move destination "@ + d,
        MoveErrorView::CreateParent(d, _) => "failed to create move destination parent "@ + d,
        MoveErrorView::PrepareStaging(d, _) => "failed to prepare a move staging path near "@ + d,
        MoveErrorView::MovePath(s, d, _) => "failed to move "@ + s + " to "@ + d,
        MoveErrorView::MovePathRollback(s, d, t, _, r) => "failed to move "@ + s + " to "@ + d
            + "; restoring it from "@ + t + " failed: "@ + r,
        MoveErrorView::Config(c) => c,
        MoveErrorView::ConfigRollback(s, d, _, r) => "failed to write config after moving "@ + s + " to "@ + d
            + "; rollback failed: "@ + r,
    }
}

impl PathMoveError {
    /// Human-readable description.
    pub fn message(&self) -> (r: String)
        ensures
            r@ == move_error_text(self@),
    {
        let mut out = String::new();
        match self {
            PathMoveError::DestinationExists(d) => {
                push_str(&mut out, "move destination already exists: ");
                push_str(&mut out, d.as_str());
            },
            PathMoveError::ReadDestination { path, .. } => {
                push_str(&mut out, "failed to inspect move destination ");
                push_str(&mut out, path.as_str());
            },
            PathMoveError::CreateParent { path, .. } => {
                push_str(&mut out, "failed to create move destination parent ");
                push_str(&mut out, path.as_str());
            },
            PathMoveError::PrepareStaging { path, .. } => {
                push_str(&mut out, "failed to prepare a move staging path near ");
                push_str(&mut out, path.as_str());
            },
            PathMoveError::MovePath { source_path, destination_path, .. } => {
                push_str(&mut out, "failed to move ");
                push_str(&mut out, source_path.as_str());
                push_str(&mut out, " to ");
                push_str(&mut out, destination_path.as_str());
            },
            PathMoveError::MovePathRollback { source_path, destination_path, staging_path, rollback, .. } => {
                push_str(&mut out, "failed to move ");
                push_str(&mut out, source_path.as_str());
                push_str(&mut out, " to ");
                push_str(&mut out, destination_path.as_str());
                push_str(&mut out, "; restoring it from ");
                push_str(&mut out, staging_path.as_str());
                push_str(&mut out, " failed: ");
                push_str(&mut out, rollback.as_str());
            },
            PathMoveError::Config(c) => {
                push_str(&mut out, c.as_str());
            },
            PathMoveError::ConfigRollback { source_path, destination_path, rollback, .. } => {
                push_str(&mut out, "failed to write config after moving ");
                push_str(&mut out, source_path.as_str());
                push_str(&mut out, " to ");
                push_str(&mut out, destination_path.as_str());
                push_str(&mut out, "; rollback failed: ");
                push_str(&mut out, rollback.as_str());
            },
        }
        out
    }

    /// The underlying error text, where there is one.
    pub fn cause(&self) -> (r: Option<&str>)
        ensures
            match r {
                Some(t) => match self@ {
                    MoveErrorView::ReadDestination(_, e) => t@ == e,
                    MoveErrorView::CreateParent(_, e) => t@ == e,
                    MoveErrorView::PrepareStaging(_, e) => t@ == e,
                    MoveErrorView::MovePath(_, _, e) => t@ == e,
                    MoveErrorView::MovePathRollback(_, _, _, e, _) => t@ == e,
                    MoveErrorView::ConfigRollback(_, _, e, _) => t@ == e,
                    _ => false,
                },
                None => self@ is DestinationExists || self@ is Config,
            },
    {
        match self {
            PathMoveError::ReadDestination { error, .. } => Some(error.as_str()),
            PathMoveError::CreateParent { error, .. } => Some(error.as_str()),
            PathMoveError::PrepareStaging { error, .. } => Some(error.as_str()),
            PathMoveError::MovePath { error, .. } => Some(error.as_str()),
            PathMoveError::MovePathRollback { error, .. } => Some(error.as_str()),
            PathMoveError::ConfigRollback { error, .. } => Some(error.as_str()),
            _ => None,
        }
    }
}

/// What the file system reported for the last operation.
pub enum MoveEvent {
    /// The operation succeeded; for an inspection, the path exists.
    Succeeded,
    /// The path does not exist.
    NotFound,
    /// The operation failed with this error text.
    Failed(String),
}

/// The next operation of a move.
#[derive(Debug)]
pub enum MoveAction {
    /// Look whether a path exists (without following a final link).
    Inspect(String),
    /// Create a directory and its missing parents.
    CreateDirs(String),
    /// Rename the first path to the second.
    Rename(String, String),
    /// Remove an empty directory; a missing one is fine.
    RemoveDir(String),
    /// Write the config that names the destination.
    WriteConfig,
    /// The move is over: whether anything moved, or why it failed.
    Finish(Result<bool, PathMoveError>),
}

/// Model of a move operation, over texts.
pub enum MoveStep {
    Inspect(Seq<char>),
    CreateDirs(Seq<char>),
    Rename(Seq<char>, Seq<char>),
    RemoveDir(Seq<char>),
    WriteConfig,
    Finish(Result<bool, MoveErrorView>),
}

impl View for MoveAction {
    type V = MoveStep;

    open spec fn view(&self) -> MoveStep {
        match self {
            MoveAction::Inspect(p) => MoveStep::Inspect(p@),
            MoveAction::CreateDirs(p) => MoveStep::CreateDirs(p@),
            MoveAction::Rename(a, b) => MoveStep::Rename(a@, b@),
            MoveAction::RemoveDir(p) => MoveStep::RemoveDir(p@),
            MoveAction::WriteConfig => MoveStep::WriteConfig,
            MoveAction::Finish(r) => MoveStep::Finish(
                match r {
                    Ok(b) => Ok(*b),
                    Err(e) => Err(e@),
                },
            ),
        }
    }
}

/// Where a move stands.
pub enum MovePhase {
    /// Nothing has happened yet.
    Begin,
    /// The destination is being inspected.
    CheckDestination,
    /// The destination's parent is being created for a direct move.
    CreateParent,
    /// The source is being renamed to the destination.
    RenameDirect,
    /// Staging attempt `n` is being inspected.
    Probe(u32),
    /// The source is being renamed to staging attempt `n`.
    EnterStaging(u32),
    /// The destination's parent is being created for a nested move.
    NestedParent(u32),
    /// The staging path is being renamed to the destination.
    LeaveStaging(u32),
    /// After a failure (`error`, in creating the parent where `parent_failed`), directory
    /// `step` of the cleanup is being removed.
    Restore { attempt: u32, step: usize, parent_failed: bool, error: String },
    /// After a failure, the staging path is being renamed back to the source.
    RestoreSource { attempt: u32, parent_failed: bool, error: String },
    /// The config is being written.
    WriteConfig(ConfiguredPathMove),
    /// The config write failed with `0`; the destination is being renamed back.
    UndoDirect(String),
    /// The config write failed; staging attempt `attempt` is being inspected.
    UndoProbe { attempt: u32, error: String },
    /// The config write failed; the destination is being renamed to the staging path.
    UndoStage { attempt: u32, error: String },
    /// The config write failed; directory `step` of the cleanup is being removed.
    UndoCleanup { attempt: u32, step: usize, error: String },
    /// The config write failed; the staging path is being renamed back to the source.
    UndoSource { attempt: u32, error: String },
    /// The move is over.
    Done,
}

/// The event reports a failure.
pub open spec fn failed(ev: MoveEvent) -> bool {
    ev is Failed
}

/// Error text of a failure event.
pub open spec fn failure_text(ev: MoveEvent) -> Seq<char> {
    match ev {
        MoveEvent::Failed(e) => e@,
        _ => Seq::empty(),
    }
}

/// Report a failure.
pub open spec fn fail(e: MoveErrorView) -> (MovePhase, MoveStep) {
    (MovePhase::Done, MoveStep::Finish(Err(e)))
}

/// After a failed nested step: remove the cleanup directories, then rename the staging path back.
pub open spec fn restore_from(p: MovePlan, attempt: u32, parent_failed: bool, error: String) -> (MovePhase, MoveStep) {
    if cleanup_count(p) > 0 {
        (
            MovePhase::Restore { attempt, step: 0, parent_failed, error },
            MoveStep::RemoveDir(cleanup_dir(p, 0)),
        )
    } else {
        (MovePhase::RestoreSource { attempt, parent_failed, error }, MoveStep::Rename(candidate(p, attempt as nat), p.source))
    }
}

/// After a failed config write of a nested move, once the destination is staged: clean up,
/// then rename the staging path back.
pub open spec fn undo_from(p: MovePlan, attempt: u32, error: String) -> (MovePhase, MoveStep) {
    if cleanup_count(p) > 0 {
        (MovePhase::UndoCleanup { attempt, step: 0, error }, MoveStep::RemoveDir(cleanup_dir(p, 0)))
    } else {
        (MovePhase::UndoSource { attempt, error }, MoveStep::Rename(candidate(p, attempt as nat), p.source))
    }
}

/// A failed config write, with its rollback failure.
pub open spec fn config_rollback(p: MovePlan, error: String, rollback: Seq<char>) -> (MovePhase, MoveStep) {
    fail(MoveErrorView::ConfigRollback(p.source, p.destination, error@, rollback))
}

/// The transition of a move: from a phase and the report of the last operation, the next
/// phase and operation.
pub open spec fn move_next(p: MovePlan, phase: MovePhase, ev: MoveEvent) -> (MovePhase, MoveStep) {
    let kind = move_kind(p.source, p.destination);
    match phase {
        MovePhase::Begin => if kind is Unchanged {
            (MovePhase::WriteConfig(ConfiguredPathMove::Unchanged), MoveStep::WriteConfig)
        } else {
            (MovePhase::CheckDestination, MoveStep::Inspect(p.destination))
        },
        MovePhase::CheckDestination => match ev {
            MoveEvent::Failed(e) => fail(MoveErrorView::ReadDestination(p.destination, e@)),
            MoveEvent::Succeeded => fail(MoveErrorView::DestinationExists(p.destination)),
            MoveEvent::NotFound => if kind is Nested {
                (MovePhase::Probe(0), MoveStep::Inspect(candidate(p, 0)))
            } else if nonempty_parent(destination_parts(p)) is Some {
                (MovePhase::CreateParent, MoveStep::CreateDirs(destination_parent_text(p)))
            } else {
                (MovePhase::RenameDirect, MoveStep::Rename(p.source, p.destination))
            },
        },
        MovePhase::CreateParent => if failed(ev) {
            fail(MoveErrorView::CreateParent(destination_parent_text(p), failure_text(ev)))
        } else {
            (MovePhase::RenameDirect, MoveStep::Rename(p.source, p.destination))
        },
        MovePhase::RenameDirect => if failed(ev) {
            fail(MoveErrorView::MovePath(p.source, p.destination, failure_text(ev)))
        } else {
            (MovePhase::WriteConfig(ConfiguredPathMove::Direct), MoveStep::WriteConfig)
        },
        MovePhase::Probe(n) => match ev {
            MoveEvent::Failed(e) => fail(MoveErrorView::PrepareStaging(staging_near(p), e@)),
            MoveEvent::NotFound => (MovePhase::EnterStaging(n), MoveStep::Rename(p.source, candidate(p, n as nat))),
            MoveEvent::Succeeded => if n + 1 < STAGING_ATTEMPTS {
                (MovePhase::Probe((n + 1) as u32), MoveStep::Inspect(candidate(p, (n + 1) as nat)))
            } else {
                fail(MoveErrorView::PrepareStaging(staging_near(p), staging_unavailable(p)))
            },
        },
        MovePhase::EnterStaging(n) => if failed(ev) {
            fail(MoveErrorView::MovePath(p.source, p.destination, failure_text(ev)))
        } else if nonempty_parent(destination_parts(p)) is Some {
            (MovePhase::NestedParent(n), MoveStep::CreateDirs(destination_parent_text(p)))
        } else {
            (MovePhase::LeaveStaging(n), MoveStep::Rename(candidate(p, n as nat), p.destination))
        },
        MovePhase::NestedParent(n) => match ev {
            MoveEvent::Failed(e) => restore_from(p, n, true, e),
            _ => (MovePhase::LeaveStaging(n), MoveStep::Rename(candidate(p, n as nat), p.destination)),
        },
        MovePhase::LeaveStaging(n) => match ev {
            MoveEvent::Failed(e) => restore_from(p, n, false, e),
            _ => (MovePhase::WriteConfig(ConfiguredPathMove::Nested), MoveStep::WriteConfig),
        },
        MovePhase::Restore { attempt, step, parent_failed, error } => match ev {
            MoveEvent::Failed(r) => fail(
                MoveErrorView::MovePathRollback(p.source, p.destination, candidate(p, attempt as nat), error@, r@),
            ),
            _ => if step + 1 < cleanup_count(p) {
                (
                    MovePhase::Restore { attempt, step: (step + 1) as usize, parent_failed, error },
                    MoveStep::RemoveDir(cleanup_dir(p, step + 1)),
                )
            } else {
                (
                    MovePhase::RestoreSource { attempt, parent_failed, error },
                    MoveStep::Rename(candidate(p, attempt as nat), p.source),
                )
            },
        },
        MovePhase::RestoreSource { attempt, parent_failed, error } => match ev {
            MoveEvent::Failed(r) => fail(
                MoveErrorView::MovePathRollback(p.source, p.destination, candidate(p, attempt as nat), error@, r@),
            ),
            _ => if parent_failed {
                fail(MoveErrorView::CreateParent(destination_parent_text(p), error@))
            } else {
                fail(MoveErrorView::MovePath(p.source, p.destination, error@))
            },
        },
        MovePhase::WriteConfig(k) => match ev {
            MoveEvent::Failed(c) => match k {
                ConfiguredPathMove::Unchanged => fail(MoveErrorView::Config(c@)),
                ConfiguredPathMove::Direct => (MovePhase::UndoDirect(c), MoveStep::Rename(p.destination, p.source)),
                ConfiguredPathMove::Nested => (
                    MovePhase::UndoProbe { attempt: 0, error: c },
                    MoveStep::Inspect(candidate(p, 0)),
                ),
            },
            _ => (MovePhase::Done, MoveStep::Finish(Ok(k.spec_moved()))),
        },
        MovePhase::UndoDirect(c) => match ev {
            MoveEvent::Failed(r) => config_rollback(p, c, r@),
            _ => fail(MoveErrorView::Config(c@)),
        },
        MovePhase::UndoProbe { attempt, error } => match ev {
            MoveEvent::Failed(r) => config_rollback(p, error, r@),
            MoveEvent::NotFound => (
                MovePhase::UndoStage { attempt, error },
                MoveStep::Rename(p.destination, candidate(p, attempt as nat)),
            ),
            MoveEvent::Succeeded => if attempt + 1 < STAGING_ATTEMPTS {
                (
                    MovePhase::UndoProbe { attempt: (attempt + 1) as u32, error },
                    MoveStep::Inspect(candidate(p, (attempt + 1) as nat)),
                )
            } else {
                config_rollback(p, error, staging_unavailable(p))
            },
        },
        MovePhase::UndoStage { attempt, error } => match ev {
            MoveEvent::Failed(r) => config_rollback(p, error, r@),
            _ => undo_from(p, attempt, error),
        },
        MovePhase::UndoCleanup { attempt, step, error } => match ev {
            MoveEvent::Failed(r) => config_rollback(p, error, r@),
            _ => if step + 1 < cleanup_count(p) {
                (
                    MovePhase::UndoCleanup { attempt, step: (step + 1) as usize, error },
                    MoveStep::RemoveDir(cleanup_dir(p, step + 1)),
                )
            } else {
                (MovePhase::UndoSource { attempt, error }, MoveStep::Rename(candidate(p, attempt as nat), p.source))
            },
        },
        MovePhase::UndoSource { attempt, error } => match ev {
            MoveEvent::Failed(r) => config_rollback(p, error, r@),
            _ => fail(MoveErrorView::Config(error@)),
        },
        MovePhase::Done => (MovePhase::Done, MoveStep::Finish(Ok(false))),
    }
}


/// A move of a configured path from `source` to `destination`, driven one file-system
/// report at a time.
///
/// The caller performs each [`MoveAction`] and hands what happened to [`PathMove::step`],
/// until the action is [`MoveAction::Finish`].
pub struct PathMove {
    source: String,
    destination: String,
    source_parts: Vec<Vec<char>>,
    destination_parts: Vec<Vec<char>>,
    pid: u32,
    kind: ConfiguredPathMove,
    phase: MovePhase,
}

impl PathMove {
    /// The planned move.
    pub closed spec fn plan(&self) -> MovePlan {
        MovePlan { source: self.source@, destination: self.destination@, pid: self.pid as nat }
    }

    /// Where the move stands.
    pub closed spec fn phase(&self) -> MovePhase {
        self.phase
    }

    /// The component lists and the kind agree with the two paths.
    pub closed spec fn wf(&self) -> bool {
        &&& parts_view(self.source_parts@) == path_components(self.source@)
        &&& parts_view(self.destination_parts@) == path_components(self.destination@)
        &&& self.kind == move_kind(self.source@, self.destination@)
    }

    /// Plan the move of `source` to `destination`; staging names carry `pid`.
    pub fn new(source: &str, destination: &str, pid: u32) -> (r: Self)
        ensures
            r.wf(),
            r.plan() == (MovePlan { source: source@, destination: destination@, pid: pid as nat }),
            r.phase() is Begin,
    {
        let source_parts = components_of(source);
        let destination_parts = components_of(destination);
        let kind = if parts_equal(&source_parts, &destination_parts) {
            ConfiguredPathMove::Unchanged
        } else if parts_start_with(&destination_parts, &source_parts) {
            ConfiguredPathMove::Nested
        } else {
            ConfiguredPathMove::Direct
        };
        PathMove {
            source: source.to_string(),
            destination: destination.to_string(),
            source_parts,
            destination_parts,
            pid,
            kind,
            phase: MovePhase::Begin,
        }
    }

    /// Kind of the move.
    pub fn kind(&self) -> (r: ConfiguredPathMove)
        requires
            self.wf(),
        ensures
            r == move_kind(self.plan().source, self.plan().destination),
    {
        self.kind
    }

    /// Whether the move is over.
    pub fn is_done(&self) -> (r: bool)
        ensures
            r == (self.phase() is Done),
    {
        match self.phase {
            MovePhase::Done => true,
            _ => false,
        }
    }

    fn staging_dir_parts(&self) -> (r: Vec<Vec<char>>)
        requires
            self.wf(),
        ensures
            parts_view(r@) == staging_dir(source_parts(self.plan())),
    {
        match nonempty_parent_parts(&self.source_parts) {
            Some(q) => q,
            None => {
                let mut v: Vec<Vec<char>> = Vec::new();
                let dot = vec!['.'];
                assert(dot@ =~= cur_dir());
                push_part(&mut v, dot);
                assert(parts_view(v@) =~= seq![cur_dir()]);
                v
            },
        }
    }

    fn source_label_text(&self) -> (r: String)
        requires
            self.wf(),
        ensures
            r@ == source_label(source_parts(self.plan())),
    {
        let fallback = "path";
        proof {
            reveal_strlit("path");
        }
        file_label_of(&self.source_parts, fallback)
    }

    fn candidate_text(&self, attempt: u32) -> (r: String)
        requires
            self.wf(),
        ensures
            r@ == candidate(self.plan(), attempt as nat),
    {
        let mut name = String::new();
        push_str(&mut name, ".sirno-move-");
        let label = self.source_label_text();
        push_str(&mut name, label.as_str());
        push_str(&mut name, "-");
        push_decimal(&mut name, self.pid as usize);
        push_str(&mut name, "-");
        push_decimal(&mut name, attempt as usize);
        assert(name@ =~= staging_name(source_parts(self.plan()), self.pid as nat, attempt as nat));
        let mut parts = self.staging_dir_parts();
        push_part(&mut parts, chars_of(name.as_str()));
        render_parts(&parts)
    }

    fn near_text(&self) -> (r: String)
        requires
            self.wf(),
        ensures
            r@ == staging_near(self.plan()),
    {
        let parts = self.staging_dir_parts();
        render_parts(&parts)
    }

    fn unavailable_text(&self) -> (r: String)
        requires
            self.wf(),
        ensures
            r@ == staging_unavailable(self.plan()),
    {
        let mut out = String::new();
        push_str(&mut out, "move staging paths are unavailable near ");
        let near = self.near_text();
        push_str(&mut out, near.as_str());
        out
    }

    fn parent_text(&self) -> (r: Option<String>)
        requires
            self.wf(),
        ensures
            match r {
                Some(t) => nonempty_parent(destination_parts(self.plan())) is Some && t@
                    == destination_parent_text(self.plan()),
                None => nonempty_parent(destination_parts(self.plan())) is None,
            },
    {
        match nonempty_parent_parts(&self.destination_parts) {
            Some(q) => Some(render_parts(&q)),
            None => None,
        }
    }

    fn parent_or_empty(&self) -> (r: String)
        requires
            self.wf(),
        ensures
            r@ == destination_parent_text(self.plan()),
    {
        match self.parent_text() {
            Some(t) => t,
            None => String::new(),
        }
    }

    fn cleanup_len(&self) -> (r: usize)
        requires
            self.wf(),
        ensures
            r == cleanup_count(self.plan()),
    {
        let d = self.destination_parts.len();
        let s = self.source_parts.len();
        if d > s {
            d - s
        } else {
            0
        }
    }

    fn cleanup_text(&self, k: usize) -> (r: String)
        requires
            self.wf(),
            k < cleanup_count(self.plan()),
        ensures
            r@ == cleanup_dir(self.plan(), k as int),
    {
        let d = self.destination_parts.len();
        let parts = take_parts(&self.destination_parts, d - 1 - k);
        render_parts(&parts)
    }
}


impl PathMove {
    fn finish_err(e: PathMoveError) -> (r: (MovePhase, MoveAction))
        ensures
            (r.0, r.1@) == fail(e@),
    {
        (MovePhase::Done, MoveAction::Finish(Err(e)))
    }

    fn move_path_error(&self, error: String) -> (r: PathMoveError)
        ensures
            r@ == MoveErrorView::MovePath(self.plan().source, self.plan().destination, error@),
    {
        PathMoveError::MovePath {
            source_path: self.source.clone(),
            destination_path: self.destination.clone(),
            error,
        }
    }

    fn config_rollback_error(&self, error: String, rollback: String) -> (r: (MovePhase, MoveAction))
        ensures
            (r.0, r.1@) == config_rollback(self.plan(), error, rollback@),
    {
        Self::finish_err(
            PathMoveError::ConfigRollback {
                source_path: self.source.clone(),
                destination_path: self.destination.clone(),
                error: error.clone(),
                rollback,
            },
        )
    }

    fn next_begin(&self) -> (r: (MovePhase, MoveAction))
        requires
            self.wf(),
        ensures
            forall|ev: MoveEvent| (r.0, r.1@) == #[trigger] move_next(self.plan(), MovePhase::Begin, ev),
    {
        match self.kind {
            ConfiguredPathMove::Unchanged => (
                MovePhase::WriteConfig(ConfiguredPathMove::Unchanged),
                MoveAction::WriteConfig,
            ),
            _ => (MovePhase::CheckDestination, MoveAction::Inspect(self.destination.clone())),
        }
    }

    fn next_check(&self, event: MoveEvent) -> (r: (MovePhase, MoveAction))
        requires
            self.wf(),
        ensures
            (r.0, r.1@) == move_next(self.plan(), MovePhase::CheckDestination, event),
    {
        match event {
            MoveEvent::Failed(e) => Self::finish_err(
                PathMoveError::ReadDestination { path: self.destination.clone(), error: e },
            ),
            MoveEvent::Succeeded => Self::finish_err(PathMoveError::DestinationExists(self.destination.clone())),
            MoveEvent::NotFound => match self.kind {
                ConfiguredPathMove::Nested => (MovePhase::Probe(0), MoveAction::Inspect(self.candidate_text(0))),
                _ => match self.parent_text() {
                    Some(t) => (MovePhase::CreateParent, MoveAction::CreateDirs(t)),
                    None => (
                        MovePhase::RenameDirect,
                        MoveAction::Rename(self.source.clone(), self.destination.clone()),
                    ),
                },
            },
        }
    }

    fn next_create_parent(&self, event: MoveEvent) -> (r: (MovePhase, MoveAction))
        requires
            self.wf(),
        ensures
            (r.0, r.1@) == move_next(self.plan(), MovePhase::CreateParent, event),
    {
        match event {
            MoveEvent::Failed(e) => Self::finish_err(
                PathMoveError::CreateParent { path: self.parent_or_empty(), error: e },
            ),
            _ => (MovePhase::RenameDirect, MoveAction::Rename(self.source.clone(), self.destination.clone())),
        }
    }

    fn next_rename_direct(&self, event: MoveEvent) -> (r: (MovePhase, MoveAction))
        requires
            self.wf(),
        ensures
            (r.0, r.1@) == move_next(self.plan(), MovePhase::RenameDirect, event),
    {
        match event {
            MoveEvent::Failed(e) => Self::finish_err(self.move_path_error(e)),
            _ => (MovePhase::WriteConfig(ConfiguredPathMove::Direct), MoveAction::WriteConfig),
        }
    }

    fn next_probe(&self, n: u32, event: MoveEvent) -> (r: (MovePhase, MoveAction))
        requires
            self.wf(),
        ensures
            (r.0, r.1@) == move_next(self.plan(), MovePhase::Probe(n), event),
    {
        match event {
            MoveEvent::Failed(e) => Self::finish_err(PathMoveError::PrepareStaging { path: self.near_text(), error: e }),
            MoveEvent::NotFound => (
                MovePhase::EnterStaging(n),
                MoveAction::Rename(self.source.clone(), self.candidate_text(n)),
            ),
            MoveEvent::Succeeded => if n < STAGING_ATTEMPTS - 1 {
                (MovePhase::Probe(n + 1), MoveAction::Inspect(self.candidate_text(n + 1)))
            } else {
                Self::finish_err(
                    PathMoveError::PrepareStaging { path: self.near_text(), error: self.unavailable_text() },
                )
            },
        }
    }

    fn next_enter_staging(&self, n: u32, event: MoveEvent) -> (r: (MovePhase, MoveAction))
        requires
            self.wf(),
        ensures
            (r.0, r.1@) == move_next(self.plan(), MovePhase::EnterStaging(n), event),
    {
        match event {
            MoveEvent::Failed(e) => Self::finish_err(self.move_path_error(e)),
            _ => match self.parent_text() {
                Some(t) => (MovePhase::NestedParent(n), MoveAction::CreateDirs(t)),
                None => (
                    MovePhase::LeaveStaging(n),
                    MoveAction::Rename(self.candidate_text(n), self.destination.clone()),
                ),
            },
        }
    }

    fn restore(&self, attempt: u32, parent_failed: bool, error: String) -> (r: (MovePhase, MoveAction))
        requires
            self.wf(),
        ensures
            (r.0, r.1@) == restore_from(self.plan(), attempt, parent_failed, error),
    {
        if self.cleanup_len() > 0 {
            (
                MovePhase::Restore { attempt, step: 0, parent_failed, error },
                MoveAction::RemoveDir(self.cleanup_text(0)),
            )
        } else {
            (
                MovePhase::RestoreSource { attempt, parent_failed, error },
                MoveAction::Rename(self.candidate_text(attempt), self.source.clone()),
            )
        }
    }

    fn next_nested_parent(&self, n: u32, event: MoveEvent) -> (r: (MovePhase, MoveAction))
        requires
            self.wf(),
        ensures
            (r.0, r.1@) == move_next(self.plan(), MovePhase::NestedParent(n), event),
    {
        match event {
            MoveEvent::Failed(e) => self.restore(n, true, e),
            _ => (MovePhase::LeaveStaging(n), MoveAction::Rename(self.candidate_text(n), self.destination.clone())),
        }
    }

    fn next_leave_staging(&self, n: u32, event: MoveEvent) -> (r: (MovePhase, MoveAction))
        requires
            self.wf(),
        ensures
            (r.0, r.1@) == move_next(self.plan(), MovePhase::LeaveStaging(n), event),
    {
        match event {
            MoveEvent::Failed(e) => self.restore(n, false, e),
            _ => (MovePhase::WriteConfig(ConfiguredPathMove::Nested), MoveAction::WriteConfig),
        }
    }

    fn rollback_failed(&self, attempt: u32, error: &String, rollback: String) -> (r: (MovePhase, MoveAction))
        requires
            self.wf(),
        ensures
            (r.0, r.1@) == fail(
                MoveErrorView::MovePathRollback(
                    self.plan().source,
                    self.plan().destination,
                    candidate(self.plan(), attempt as nat),
                    error@,
                    rollback@,
                ),
            ),
    {
        Self::finish_err(
            PathMoveError::MovePathRollback {
                source_path: self.source.clone(),
                destination_path: self.destination.clone(),
                staging_path: self.candidate_text(attempt),
                error: error.clone(),
                rollback,
            },
        )
    }

    fn next_restore(&self, attempt: u32, step: usize, parent_failed: bool, error: &String, event: MoveEvent) -> (r: (
        MovePhase,
        MoveAction,
    ))
        requires
            self.wf(),
        ensures
            (r.0, r.1@) == move_next(self.plan(), MovePhase::Restore { attempt, step, parent_failed, error: *error }, event),
    {
        match event {
            MoveEvent::Failed(r) => self.rollback_failed(attempt, error, r),
            _ => {
                let count = self.cleanup_len();
                if count > 0 && step < count - 1 {
                    (
                        MovePhase::Restore { attempt, step: step + 1, parent_failed, error: error.clone() },
                        MoveAction::RemoveDir(self.cleanup_text(step + 1)),
                    )
                } else {
                    (
                        MovePhase::RestoreSource { attempt, parent_failed, error: error.clone() },
                        MoveAction::Rename(self.candidate_text(attempt), self.source.clone()),
                    )
                }
            },
        }
    }

    fn next_restore_source(&self, attempt: u32, parent_failed: bool, error: &String, event: MoveEvent) -> (r: (
        MovePhase,
        MoveAction,
    ))
        requires
            self.wf(),
        ensures
            (r.0, r.1@) == move_next(self.plan(), MovePhase::RestoreSource { attempt, parent_failed, error: *error }, event),
    {
        match event {
            MoveEvent::Failed(r) => self.rollback_failed(attempt, error, r),
            _ => if parent_failed {
                Self::finish_err(PathMoveError::CreateParent { path: self.parent_or_empty(), error: error.clone() })
            } else {
                Self::finish_err(self.move_path_error(error.clone()))
            },
        }
    }

    fn next_write_config(&self, k: ConfiguredPathMove, event: MoveEvent) -> (r: (MovePhase, MoveAction))
        requires
            self.wf(),
        ensures
            (r.0, r.1@) == move_next(self.plan(), MovePhase::WriteConfig(k), event),
    {
        match event {
            MoveEvent::Failed(c) => match k {
                ConfiguredPathMove::Unchanged => Self::finish_err(PathMoveError::Config(c)),
                ConfiguredPathMove::Direct => (
                    MovePhase::UndoDirect(c),
                    MoveAction::Rename(self.destination.clone(), self.source.clone()),
                ),
                ConfiguredPathMove::Nested => (
                    MovePhase::UndoProbe { attempt: 0, error: c },
                    MoveAction::Inspect(self.candidate_text(0)),
                ),
            },
            _ => (MovePhase::Done, MoveAction::Finish(Ok(k.moved()))),
        }
    }

    fn next_undo_direct(&self, c: &String, event: MoveEvent) -> (r: (MovePhase, MoveAction))
        requires
            self.wf(),
        ensures
            (r.0, r.1@) == move_next(self.plan(), MovePhase::UndoDirect(*c), event),
    {
        match event {
            MoveEvent::Failed(r) => self.config_rollback_error(c.clone(), r),
            _ => Self::finish_err(PathMoveError::Config(c.clone())),
        }
    }

    fn next_undo_probe(&self, attempt: u32, error: &String, event: MoveEvent) -> (r: (MovePhase, MoveAction))
        requires
            self.wf(),
        ensures
            (r.0, r.1@) == move_next(self.plan(), MovePhase::UndoProbe { attempt, error: *error }, event),
    {
        match event {
            MoveEvent::Failed(r) => self.config_rollback_error(error.clone(), r),
            MoveEvent::NotFound => (
                MovePhase::UndoStage { attempt, error: error.clone() },
                MoveAction::Rename(self.destination.clone(), self.candidate_text(attempt)),
            ),
            MoveEvent::Succeeded => if attempt < STAGING_ATTEMPTS - 1 {
                (
                    MovePhase::UndoProbe { attempt: attempt + 1, error: error.clone() },
                    MoveAction::Inspect(self.candidate_text(attempt + 1)),
                )
            } else {
                self.config_rollback_error(error.clone(), self.unavailable_text())
            },
        }
    }

    fn next_undo_stage(&self, attempt: u32, error: &String, event: MoveEvent) -> (r: (MovePhase, MoveAction))
        requires
            self.wf(),
        ensures
            (r.0, r.1@) == move_next(self.plan(), MovePhase::UndoStage { attempt, error: *error }, event),
    {
        match event {
            MoveEvent::Failed(r) => self.config_rollback_error(error.clone(), r),
            _ => if self.cleanup_len() > 0 {
                (
                    MovePhase::UndoCleanup { attempt, step: 0, error: error.clone() },
                    MoveAction::RemoveDir(self.cleanup_text(0)),
                )
            } else {
                (
                    MovePhase::UndoSource { attempt, error: error.clone() },
                    MoveAction::Rename(self.candidate_text(attempt), self.source.clone()),
                )
            },
        }
    }

    fn next_undo_cleanup(&self, attempt: u32, step: usize, error: &String, event: MoveEvent) -> (r: (
        MovePhase,
        MoveAction,
    ))
        requires
            self.wf(),
        ensures
            (r.0, r.1@) == move_next(self.plan(), MovePhase::UndoCleanup { attempt, step, error: *error }, event),
    {
        match event {
            MoveEvent::Failed(r) => self.config_rollback_error(error.clone(), r),
            _ => {
                let count = self.cleanup_len();
                if count > 0 && step < count - 1 {
                    (
                        MovePhase::UndoCleanup { attempt, step: step + 1, error: error.clone() },
                        MoveAction::RemoveDir(self.cleanup_text(step + 1)),
                    )
                } else {
                    (
                        MovePhase::UndoSource { attempt, error: error.clone() },
                        MoveAction::Rename(self.candidate_text(attempt), self.source.clone()),
                    )
                }
            },
        }
    }

    fn next_undo_source(&self, attempt: u32, error: &String, event: MoveEvent) -> (r: (MovePhase, MoveAction))
        requires
            self.wf(),
        ensures
            (r.0, r.1@) == move_next(self.plan(), MovePhase::UndoSource { attempt, error: *error }, event),
    {
        match event {
            MoveEvent::Failed(r) => self.config_rollback_error(error.clone(), r),
            _ => Self::finish_err(PathMoveError::Config(error.clone())),
        }
    }

    /// Take the report of the last operation (ignored before the first one) and give the
    /// next operation.
    pub fn step(&mut self, event: MoveEvent) -> (r: MoveAction)
        requires
            old(self).wf(),
            !(old(self).phase() is Done),
        ensures
            final(self).wf(),
            final(self).plan() == old(self).plan(),
            (final(self).phase(), r@) == move_next(old(self).plan(), old(self).phase(), event),
    {
        let (next, action) = match &self.phase {
            MovePhase::Begin => self.next_begin(),
            MovePhase::CheckDestination => self.next_check(event),
            MovePhase::CreateParent => self.next_create_parent(event),
            MovePhase::RenameDirect => self.next_rename_direct(event),
            MovePhase::Probe(n) => self.next_probe(*n, event),
            MovePhase::EnterStaging(n) => self.next_enter_staging(*n, event),
            MovePhase::NestedParent(n) => self.next_nested_parent(*n, event),
            MovePhase::LeaveStaging(n) => self.next_leave_staging(*n, event),
            MovePhase::Restore { attempt, step, parent_failed, error } => self.next_restore(
                *attempt,
                *step,
                *parent_failed,
                error,
                event,
            ),
            MovePhase::RestoreSource { attempt, parent_failed, error } => self.next_restore_source(
                *attempt,
                *parent_failed,
                error,
                event,
            ),
            MovePhase::WriteConfig(k) => self.next_write_config(*k, event),
            MovePhase::UndoDirect(c) => self.next_undo_direct(c, event),
            MovePhase::UndoProbe { attempt, error } => self.next_undo_probe(*attempt, error, event),
            MovePhase::UndoStage { attempt, error } => self.next_undo_stage(*attempt, error, event),
            MovePhase::UndoCleanup { attempt, step, error } => self.next_undo_cleanup(*attempt, *step, error, event),
            MovePhase::UndoSource { attempt, error } => self.next_undo_source(*attempt, error, event),
            MovePhase::Done => (MovePhase::Done, MoveAction::Finish(Ok(false))),
        };
        self.phase = next;
        action
    }
}


/// The phase is one that a move of this kind reaches, with counters in range.
pub open spec fn phase_fits(p: MovePlan, ph: MovePhase) -> bool {
    let kind = move_kind(p.source, p.destination);
    let has_parent = nonempty_parent(destination_parts(p)) is Some;
    match ph {
        MovePhase::Begin => true,
        MovePhase::CheckDestination => !(kind is Unchanged),
        MovePhase::CreateParent => kind is Direct && has_parent,
        MovePhase::RenameDirect => kind is Direct,
        MovePhase::Probe(n) => kind is Nested && n < STAGING_ATTEMPTS,
        MovePhase::EnterStaging(n) => kind is Nested && n < STAGING_ATTEMPTS,
        MovePhase::NestedParent(n) => kind is Nested && n < STAGING_ATTEMPTS && has_parent,
        MovePhase::LeaveStaging(n) => kind is Nested && n < STAGING_ATTEMPTS,
        MovePhase::Restore { attempt, step, .. } => kind is Nested && attempt < STAGING_ATTEMPTS && step
            < cleanup_count(p),
        MovePhase::RestoreSource { attempt, .. } => kind is Nested && attempt < STAGING_ATTEMPTS,
        MovePhase::WriteConfig(k) => k == kind,
        MovePhase::UndoDirect(_) => kind is Direct,
        MovePhase::UndoProbe { attempt, .. } => kind is Nested && attempt < STAGING_ATTEMPTS,
        MovePhase::UndoStage { attempt, .. } => kind is Nested && attempt < STAGING_ATTEMPTS,
        MovePhase::UndoCleanup { attempt, step, .. } => kind is Nested && attempt < STAGING_ATTEMPTS && step
            < cleanup_count(p),
        MovePhase::UndoSource { attempt, .. } => kind is Nested && attempt < STAGING_ATTEMPTS,
        MovePhase::Done => true,
    }
}

/// How far a phase is from the end of the move, as an upper bound on the steps left.
pub open spec fn move_measure(p: MovePlan, ph: MovePhase) -> nat {
    let c = cleanup_count(p);
    let n = STAGING_ATTEMPTS as nat;
    match ph {
        MovePhase::Done => 0,
        MovePhase::UndoSource { .. } => 1,
        MovePhase::RestoreSource { .. } => 1,
        MovePhase::UndoDirect(_) => 1,
        MovePhase::UndoCleanup { step, .. } => (2 + c - step) as nat,
        MovePhase::Restore { step, .. } => (2 + c - step) as nat,
        MovePhase::UndoStage { .. } => c + 3,
        MovePhase::UndoProbe { attempt, .. } => (c + 4 + n - attempt) as nat,
        MovePhase::WriteConfig(_) => c + n + 5,
        MovePhase::LeaveStaging(_) => c + n + 6,
        MovePhase::RenameDirect => c + n + 6,
        MovePhase::NestedParent(_) => c + n + 7,
        MovePhase::CreateParent => c + n + 7,
        MovePhase::EnterStaging(_) => c + n + 8,
        MovePhase::Probe(a) => (c + n + 9 + n - a) as nat,
        MovePhase::CheckDestination => c + 2 * n + 10,
        MovePhase::Begin => c + 2 * n + 11,
    }
}

/// A move keeps to the phases of its kind, every step brings it closer to its end, and it
/// reports its outcome exactly when it ends: a move finishes after at most
/// `move_measure(p, MovePhase::Begin)` operations. (A destination of an executable move has
/// fewer than `usize::MAX` components.)
pub proof fn law_every_move_step_brings_the_end_closer(p: MovePlan, ph: MovePhase, ev: MoveEvent)
    requires
        phase_fits(p, ph),
        !(ph is Done),
        cleanup_count(p) <= usize::MAX,
    ensures
        phase_fits(p, move_next(p, ph, ev).0),
        move_measure(p, move_next(p, ph, ev).0) < move_measure(p, ph),
        (move_next(p, ph, ev).0 is Done) == (move_next(p, ph, ev).1 is Finish),
{
    match ph {
        MovePhase::Begin => {},
        MovePhase::CheckDestination => {},
        MovePhase::CreateParent => {},
        MovePhase::RenameDirect => {},
        MovePhase::Probe(_) => {},
        MovePhase::EnterStaging(_) => {},
        MovePhase::NestedParent(_) => {},
        MovePhase::LeaveStaging(_) => {},
        MovePhase::Restore { .. } => {},
        MovePhase::RestoreSource { .. } => {},
        MovePhase::WriteConfig(_) => {},
        MovePhase::UndoDirect(_) => {},
        MovePhase::UndoProbe { .. } => {},
        MovePhase::UndoStage { .. } => {},
        MovePhase::UndoCleanup { .. } => {},
        MovePhase::UndoSource { .. } => {},
        MovePhase::Done => {},
    }
}

/// A move between two names of one path only writes the config, and reports that nothing
/// moved.
pub proof fn law_unchanged_move_only_writes_config(p: MovePlan, ph: MovePhase, ev: MoveEvent)
    requires
        phase_fits(p, ph),
        move_kind(p.source, p.destination) is Unchanged,
    ensures
        match move_next(p, ph, ev).1 {
            MoveStep::WriteConfig => true,
            MoveStep::Finish(Ok(moved)) => !moved,
            MoveStep::Finish(Err(e)) => e is Config,
            _ => false,
        },
{
}

/// A direct move touches only the destination's parent, the source and the destination: it
/// renames the source to the destination, and back when the config cannot be written.
pub proof fn law_direct_move_renames_only_source_and_destination(p: MovePlan, ph: MovePhase, ev: MoveEvent)
    requires
        phase_fits(p, ph),
        move_kind(p.source, p.destination) is Direct,
    ensures
        match move_next(p, ph, ev).1 {
            MoveStep::Rename(a, b) => (a == p.source && b == p.destination) || (a == p.destination && b
                == p.source),
            MoveStep::Inspect(x) => x == p.destination,
            MoveStep::CreateDirs(x) => x == destination_parent_text(p),
            MoveStep::RemoveDir(_) => false,
            _ => true,
        },
{
}

/// A nested move goes through a staging sibling of the source: each rename it makes starts
/// or ends at a staging path, and it only inspects the destination and staging paths.
pub proof fn law_nested_move_renames_through_staging(p: MovePlan, ph: MovePhase, ev: MoveEvent)
    requires
        phase_fits(p, ph),
        move_kind(p.source, p.destination) is Nested,
    ensures
        match move_next(p, ph, ev).1 {
            MoveStep::Rename(a, b) => exists|i: nat|
                i < STAGING_ATTEMPTS && (a == #[trigger] candidate(p, i) || b == candidate(p, i)),
            MoveStep::Inspect(x) => x == p.destination || exists|i: nat|
                i < STAGING_ATTEMPTS && x == #[trigger] candidate(p, i),
            _ => true,
        },
{
    let next = move_next(p, ph, ev);
    match ph {
        MovePhase::Probe(n) => {
            assert(candidate(p, n as nat) == candidate(p, n as nat));
            if n + 1 < STAGING_ATTEMPTS {
                assert(candidate(p, (n + 1) as nat) == candidate(p, (n + 1) as nat));
            }
        },
        MovePhase::CheckDestination => {
            assert(candidate(p, 0) == candidate(p, 0));
        },
        MovePhase::EnterStaging(n) => {
            assert(candidate(p, n as nat) == candidate(p, n as nat));
        },
        MovePhase::NestedParent(n) => {
            assert(candidate(p, n as nat) == candidate(p, n as nat));
        },
        MovePhase::LeaveStaging(n) => {
            assert(candidate(p, n as nat) == candidate(p, n as nat));
        },
        MovePhase::Restore { attempt, .. } => {
            assert(candidate(p, attempt as nat) == candidate(p, attempt as nat));
        },
        MovePhase::RestoreSource { attempt, .. } => {
            assert(candidate(p, attempt as nat) == candidate(p, attempt as nat));
        },
        MovePhase::WriteConfig(_) => {
            assert(candidate(p, 0) == candidate(p, 0));
        },
        MovePhase::UndoProbe { attempt, .. } => {
            assert(candidate(p, attempt as nat) == candidate(p, attempt as nat));
            if attempt + 1 < STAGING_ATTEMPTS {
                assert(candidate(p, (attempt + 1) as nat) == candidate(p, (attempt + 1) as nat));
            }
        },
        MovePhase::UndoStage { attempt, .. } => {
            assert(candidate(p, attempt as nat) == candidate(p, attempt as nat));
        },
        MovePhase::UndoCleanup { attempt, .. } => {
            assert(candidate(p, attempt as nat) == candidate(p, attempt as nat));
        },
        _ => {},
    }
}

/// Undoing a nested move removes only directories between the destination and the source:
/// each lies inside the source and above the destination.
pub proof fn law_nested_cleanup_stays_inside_the_source(p: MovePlan, ph: MovePhase, ev: MoveEvent)
    requires
        phase_fits(p, ph),
        move_kind(p.source, p.destination) is Nested,
    ensures
        match move_next(p, ph, ev).1 {
            MoveStep::RemoveDir(x) => exists|k: int|
                0 <= k < cleanup_count(p) && x == #[trigger] cleanup_dir(p, k) && starts_with(
                    cleanup_parts(p, k),
                    source_parts(p),
                ) && starts_with(destination_parts(p), cleanup_parts(p, k)) && cleanup_parts(p, k).len()
                    < destination_parts(p).len(),
            _ => true,
        },
{
    let s = source_parts(p);
    let d = destination_parts(p);
    assert(d.len() > s.len()) by {
        if d.len() == s.len() {
            assert(d.take(s.len() as int) =~= d);
        }
    }
    assert forall|k: int| 0 <= k < cleanup_count(p) implies starts_with(#[trigger] cleanup_parts(p, k), s)
        && starts_with(d, cleanup_parts(p, k)) && cleanup_parts(p, k).len() < d.len() by {
        let c = cleanup_parts(p, k);
        assert(c.take(s.len() as int) =~= d.take(s.len() as int));
        assert(d.take(c.len() as int) =~= c);
    }
    match ph {
        MovePhase::Restore { step, .. } => {
            if step + 1 < cleanup_count(p) {
                assert(cleanup_dir(p, step + 1) == cleanup_dir(p, step + 1));
            }
        },
        MovePhase::NestedParent(_) => {
            assert(cleanup_dir(p, 0) == cleanup_dir(p, 0));
        },
        MovePhase::LeaveStaging(_) => {
            assert(cleanup_dir(p, 0) == cleanup_dir(p, 0));
        },
        MovePhase::UndoStage { .. } => {
            assert(cleanup_dir(p, 0) == cleanup_dir(p, 0));
        },
        MovePhase::UndoCleanup { step, .. } => {
            if step + 1 < cleanup_count(p) {
                assert(cleanup_dir(p, step + 1) == cleanup_dir(p, step + 1));
            }
        },
        _ => {},
    }
}

} // verus!
