//! Decisions and results of the project commands: entry renames, project status, Frost
//! snapshots and the tide worklist.
//!
//! The Frost store, the lock file and the tide computation live outside this library; a
//! command reads them, and the library decides what is allowed and what is reported.

use vstd::prelude::*;

use crate::address::EntryAddress;
use crate::config::TutorialSettings;
use crate::context::{CommandError, CoreContext, MovePathResult};
use crate::output::{LakeCheckResult, diagnostic_lines};
use crate::query::{StructuralFieldState, StructuralFilter, StructuralStateFilter};
use crate::structural::{StructuralSettings, has_relation};
use crate::path::{paths_equal, same_path, sort_unique_paths, sorted_unique_paths};
use crate::report::OpenTideTutorial;
use crate::structural::StructuralEdgeDirection;
use crate::tide::{StatusView, TideStatus, TideWorkitem, statuses_view, key_set, tide_review_entries_from_statuses};
use crate::entry::addresses_view;
use crate::artifact::cur_dir;
use crate::path::{components_of, parts_view, path_components};
use crate::relocate::{file_label, file_label_of, nonempty_parent, nonempty_parent_parts};
use crate::text::{decimal, owned, push_decimal, push_decimal_u64, push_str, strings_view};

verus! {

/// Result of renaming one entry.
#[derive(Debug)]
pub struct EntryRenameResult {
    /// Whether the command completed.
    pub ok: bool,
    /// Address before the rename.
    pub old_id: String,
    /// Address after the rename.
    pub new_id: String,
    /// Files the rename rewrote, in path order, each once.
    pub updated_paths: Vec<String>,
    /// Concise human-readable summary.
    pub message: String,
}

impl CoreContext {
    /// The result of renaming `old_id` to `new_id`, given the files the rename rewrote.
    pub fn entry_rename(&self, old_id: &EntryAddress, new_id: &EntryAddress, changed_paths: &[String]) -> (r: EntryRenameResult)
        ensures
            r.ok,
            r.old_id@ == old_id@,
            r.new_id@ == new_id@,
            sorted_unique_paths(strings_view(changed_paths@), strings_view(r.updated_paths@)),
            r.message@ == "renamed entry "@ + old_id@ + " to "@ + new_id@,
    {
        let updated_paths = sort_unique_paths(changed_paths);
        let mut message = String::new();
        push_str(&mut message, "renamed entry ");
        push_str(&mut message, old_id.as_str());
        push_str(&mut message, " to ");
        push_str(&mut message, new_id.as_str());
        EntryRenameResult {
            ok: true,
            old_id: owned(old_id.as_str()),
            new_id: owned(new_id.as_str()),
            updated_paths,
            message,
        }
    }
}

/// Whether the lake follows the latest Frost version or an older checkout.
#[derive(Clone, Copy, Debug, PartialEq, Eq, Structural)]
pub enum FrostLockStatus {
    /// The lake is the mutable current lake.
    Current,
    /// The lake is a checkout of a stored version.
    CheckedOut,
}

/// The Frost part of the project lock.
#[derive(Clone, Copy, Debug, PartialEq, Eq, Structural)]
pub struct FrostLockState {
    /// Current or checked out.
    pub status: FrostLockStatus,
    /// Frost version the lake follows.
    pub version: u64,
    /// Generation of that version.
    pub generation: u64,
    /// Whether a checkout was left writable.
    pub mutable: bool,
}

/// Summary of the lock state.
pub open spec fn frost_state_text(lock: Option<FrostLockState>) -> Seq<char> {
    match lock {
        None => "(unlocked)"@,
        Some(l) => match l.status {
            FrostLockStatus::Current => "current version "@ + decimal(l.version as nat)
                + " (generation "@ + decimal(l.generation as nat) + ", mutable)"@,
            FrostLockStatus::CheckedOut => "checked-out version "@ + decimal(l.version as nat)
                + " (generation "@ + decimal(l.generation as nat) + (if l.mutable {
                ", unsafe mutable)"@
            } else {
                ", immutable)"@
            }),
        },
    }
}

/// Summary of the lock state.
pub fn frost_state_label(lock: Option<&FrostLockState>) -> (r: String)
    ensures
        r@ == frost_state_text(match lock {
            Some(l) => Some(*l),
            None => None,
        }),
{
    let mut out = String::new();
    match lock {
        None => {
            push_str(&mut out, "(unlocked)");
        },
        Some(l) => {
            match l.status {
                FrostLockStatus::Current => {
                    push_str(&mut out, "current version ");
                },
                FrostLockStatus::CheckedOut => {
                    push_str(&mut out, "checked-out version ");
                },
            }
            push_decimal_u64(&mut out, l.version);
            push_str(&mut out, " (generation ");
            push_decimal_u64(&mut out, l.generation);
            match l.status {
                FrostLockStatus::Current => {
                    push_str(&mut out, ", mutable)");
                },
                FrostLockStatus::CheckedOut => {
                    if l.mutable {
                        push_str(&mut out, ", unsafe mutable)");
                    } else {
                        push_str(&mut out, ", immutable)");
                    }
                },
            }
        },
    }
    out
}

/// Refuse to change a lake that is an immutable checkout.
pub fn reject_immutable_checkout(lock: Option<&FrostLockState>) -> (r: Result<(), CommandError>)
    ensures
        match lock {
            Some(l) if l.status == FrostLockStatus::CheckedOut && !l.mutable => r matches Err(
                CommandError::ImmutableFrostCheckout(v),
            ) && v == l.version,
            _ => r is Ok,
        },
{
    match lock {
        Some(l) => {
            if matches!(l.status, FrostLockStatus::CheckedOut) && !l.mutable {
                Err(CommandError::ImmutableFrostCheckout(l.version))
            } else {
                Ok(())
            }
        },
        None => Ok(()),
    }
}

/// Settings of one structural field, as the status reports them.
#[derive(Debug)]
pub struct StructuralFieldStatus {
    /// Structural field name.
    pub field: String,
    /// Outgoing edge settings.
    pub to: String,
    /// Incoming edge settings.
    pub from: String,
    /// Shared-target edge settings.
    pub clique: String,
}

/// Project status.
#[derive(Debug)]
pub struct StatusResult {
    /// Whether the lake passes review checks.
    pub ok: bool,
    /// Config file of the project.
    pub config_path: String,
    /// Monograph path, when configured.
    pub mono_path: Option<String>,
    /// Lake path.
    pub lake_path: String,
    /// Frost path, when configured.
    pub frost_path: Option<String>,
    /// Summary of the lock state.
    pub frost_state: String,
    /// Number of parsed entries.
    pub entry_count: usize,
    /// Whether generated-footer checks are enabled.
    pub check_render: bool,
    /// Configured structural fields.
    pub structural_fields: Vec<StructuralFieldStatus>,
    /// Review-mode check of the lake.
    pub check: LakeCheckResult,
}

/// Paths of a project, as the status reports them.
#[derive(Debug)]
pub struct ProjectPaths {
    /// Monograph path, when configured.
    pub mono_path: Option<String>,
    /// Lake path.
    pub lake_path: String,
    /// Frost path, when configured.
    pub frost_path: Option<String>,
}

impl CoreContext {
    /// The project status from its paths, its lock, its settings and a review check.
    pub fn lake_status(
        &self,
        paths: ProjectPaths,
        lock: Option<&FrostLockState>,
        check_render: bool,
        structural_fields: Vec<StructuralFieldStatus>,
        check: LakeCheckResult,
        entry_count: usize,
    ) -> (r: StatusResult)
        ensures
            r.ok == !check.has_errors,
            r.config_path@ == self.spec_config_path(),
            r.mono_path == paths.mono_path,
            r.lake_path == paths.lake_path,
            r.frost_path == paths.frost_path,
            r.frost_state@ == frost_state_text(match lock {
                Some(l) => Some(*l),
                None => None,
            }),
            r.entry_count == entry_count,
            r.check_render == check_render,
            r.structural_fields == structural_fields,
            r.check == check,
    {
        let frost_state = frost_state_label(lock);
        StatusResult {
            ok: !check.has_errors,
            config_path: owned(self.config_path()),
            mono_path: paths.mono_path,
            lake_path: paths.lake_path,
            frost_path: paths.frost_path,
            frost_state,
            entry_count,
            check_render,
            structural_fields,
            check,
        }
    }
}

/// Frost checkout request.
#[derive(Clone, Copy, Debug, PartialEq, Eq, Structural)]
pub struct FrostCheckoutRequest {
    /// Version to check out.
    pub version: Option<u64>,
    /// Check out the latest version as the mutable current lake.
    pub latest: bool,
    /// Leave a checkout of an older version writable.
    pub unsafe_mutable: bool,
}

impl FrostCheckoutRequest {
    /// The request for the latest version.
    pub fn latest() -> (r: Self)
        ensures
            r.version is None,
            r.latest,
            !r.unsafe_mutable,
    {
        FrostCheckoutRequest { version: None, latest: true, unsafe_mutable: false }
    }
}

/// The snapshot a checkout reads.
#[derive(Clone, Copy, Debug, PartialEq, Eq, Structural)]
pub enum CheckoutTarget {
    /// The current snapshot.
    Latest,
    /// The snapshot of one version.
    Version(u64),
}

/// The snapshot a checkout request names: the latest one, else the requested version; a
/// request without a version, or for the empty version 0, is refused.
pub open spec fn checkout_target_outcome(request: FrostCheckoutRequest) -> Result<CheckoutTarget, CommandError> {
    if request.latest {
        Ok(CheckoutTarget::Latest)
    } else {
        match request.version {
            None => Err(CommandError::MissingFrostCheckoutTarget),
            Some(v) => if v == 0 {
                Err(CommandError::InvalidFrostVersion(v))
            } else {
                Ok(CheckoutTarget::Version(v))
            },
        }
    }
}

/// The snapshot a checkout request names; the empty version 0 names none.
pub fn frost_checkout_target(request: &FrostCheckoutRequest) -> (r: Result<CheckoutTarget, CommandError>)
    ensures
        r == checkout_target_outcome(*request),
        request.latest ==> r == Ok::<CheckoutTarget, CommandError>(CheckoutTarget::Latest),
        !request.latest && request.version is None ==> r matches Err(
            CommandError::MissingFrostCheckoutTarget,
        ),
        !request.latest && request.version == Some(0u64) ==> (r matches Err(
            CommandError::InvalidFrostVersion(v),
        ) && v == 0),
        !request.latest && (request.version matches Some(v) && v != 0) ==> r == Ok::<
            CheckoutTarget,
            CommandError,
        >(CheckoutTarget::Version(request.version->0)),
{
    if request.latest {
        return Ok(CheckoutTarget::Latest);
    }
    match request.version {
        None => Err(CommandError::MissingFrostCheckoutTarget),
        Some(v) => {
            if v == 0 {
                Err(CommandError::InvalidFrostVersion(v))
            } else {
                Ok(CheckoutTarget::Version(v))
            }
        },
    }
}

/// State of the lake after a checkout.
pub open spec fn checkout_state_text(request: FrostCheckoutRequest) -> Seq<char> {
    if request.latest {
        "mutable"@
    } else if request.unsafe_mutable {
        "unsafe mutable"@
    } else {
        "immutable"@
    }
}

/// State of the lake after a checkout.
pub fn checkout_state_label(request: &FrostCheckoutRequest) -> (r: &'static str)
    ensures
        r@ == checkout_state_text(*request),
{
    if request.latest {
        "mutable"
    } else if request.unsafe_mutable {
        "unsafe mutable"
    } else {
        "immutable"
    }
}

/// Whether a checkout leaves the lake writable.
pub fn checkout_leaves_writable(request: &FrostCheckoutRequest) -> (r: bool)
    ensures
        r == (request.latest || request.unsafe_mutable),
{
    request.latest || request.unsafe_mutable
}

/// Result of checking out a Frost snapshot.
#[derive(Debug)]
pub struct FrostCheckoutResult {
    /// Whether the command completed.
    pub ok: bool,
    /// Checked-out version.
    pub version: u64,
    /// Lake path the checkout wrote.
    pub lake_path: String,
    /// Number of entries written.
    pub entry_count: usize,
    /// State of the lake after the checkout.
    pub state: String,
    /// Concise human-readable summary.
    pub message: String,
}

/// Summary of a checkout.
pub open spec fn checkout_message(
    request: FrostCheckoutRequest,
    version: u64,
    lake_path: Seq<char>,
    entry_count: usize,
) -> Seq<char> {
    "checked out "@ + (if request.latest {
        "latest "@
    } else {
        Seq::empty()
    }) + "frost version "@ + decimal(version as nat) + " into "@ + lake_path + " ("@ + decimal(
        entry_count as nat,
    ) + " entries, "@ + checkout_state_text(request) + ")"@
}

/// The lock of a lake that follows the current version `version` of generation `generation`.
pub open spec fn current_lock(version: u64, generation: u64) -> FrostLockState {
    FrostLockState { status: FrostLockStatus::Current, version, generation, mutable: false }
}

/// The lock a checkout writes: the current lock for the latest version, else a checked-out
/// lock that is mutable exactly when the request asked for an unsafe mutable checkout.
pub open spec fn checkout_lock(request: FrostCheckoutRequest, version: u64, generation: u64) -> FrostLockState {
    if request.latest {
        current_lock(version, generation)
    } else {
        FrostLockState { status: FrostLockStatus::CheckedOut, version, generation, mutable: request.unsafe_mutable }
    }
}

/// A completed checkout: what is reported, the lock to write, and whether the lake files are
/// left writable (else they are made read-only).
#[derive(Debug)]
pub struct FrostCheckout {
    /// Reported result.
    pub result: FrostCheckoutResult,
    /// Lock that records the checkout.
    pub lock: FrostLockState,
    /// Whether the lake files stay writable.
    pub writable: bool,
}

impl CoreContext {
    /// A checkout of the snapshot that `request` names, which the Frost store read as version
    /// `version` of generation `generation`, into the lake at `lake_path` with `entry_count`
    /// entries. A request without a target, for version 0, or that reads the empty version
    /// 0, is refused.
    pub fn frost_checkout(
        &self,
        request: &FrostCheckoutRequest,
        version: u64,
        generation: u64,
        lake_path: &str,
        entry_count: usize,
    ) -> (r: Result<FrostCheckout, CommandError>)
        ensures
            match checkout_target_outcome(*request) {
                Err(e) => r == Err::<FrostCheckout, CommandError>(e),
                Ok(_) => if version == 0 {
                    r matches Err(CommandError::InvalidFrostVersion(v)) && v == 0
                } else {
                    r matches Ok(c) && c.result.ok && c.result.version == version
                        && c.result.lake_path@ == lake_path@ && c.result.entry_count == entry_count
                        && c.result.state@ == checkout_state_text(*request) && c.result.message@
                        == checkout_message(*request, version, lake_path@, entry_count) && c.lock
                        == checkout_lock(*request, version, generation) && c.writable == (
                    request.latest || request.unsafe_mutable)
                },
            },
    {
        frost_checkout_target(request)?;
        if version == 0 {
            return Err(CommandError::InvalidFrostVersion(version));
        }
        let state = checkout_state_label(request);
        let mut message = String::new();
        push_str(&mut message, "checked out ");
        if request.latest {
            push_str(&mut message, "latest ");
        }
        push_str(&mut message, "frost version ");
        push_decimal_u64(&mut message, version);
        push_str(&mut message, " into ");
        push_str(&mut message, lake_path);
        push_str(&mut message, " (");
        push_decimal(&mut message, entry_count);
        push_str(&mut message, " entries, ");
        push_str(&mut message, state);
        push_str(&mut message, ")");
        assert(message@ =~= checkout_message(*request, version, lake_path@, entry_count));
        let lock = if request.latest {
            FrostLockState { status: FrostLockStatus::Current, version, generation, mutable: false }
        } else {
            FrostLockState {
                status: FrostLockStatus::CheckedOut,
                version,
                generation,
                mutable: request.unsafe_mutable,
            }
        };
        Ok(
            FrostCheckout {
                result: FrostCheckoutResult {
                    ok: true,
                    version,
                    lake_path: owned(lake_path),
                    entry_count,
                    state: owned(state),
                    message,
                },
                lock,
                writable: checkout_leaves_writable(request),
            },
        )
    }

    /// A checkout of the latest snapshot, read as version `version` of generation
    /// `generation`, as the mutable current lake: the current lock, and writable files.
    pub fn frost_defrost(&self, version: u64, generation: u64, lake_path: &str, entry_count: usize) -> (r: Result<
        FrostCheckout,
        CommandError,
    >)
        ensures
            version == 0 ==> (r matches Err(CommandError::InvalidFrostVersion(v)) && v == 0),
            version != 0 ==> (r matches Ok(c) && c.result.ok && c.result.version == version
                && c.result.lake_path@ == lake_path@ && c.result.entry_count == entry_count
                && c.result.state@ == "mutable"@ && c.result.message@ == checkout_message(
                FrostCheckoutRequest { version: None, latest: true, unsafe_mutable: false },
                version,
                lake_path@,
                entry_count,
            ) && c.lock == current_lock(version, generation) && c.writable),
    {
        let request = FrostCheckoutRequest::latest();
        self.frost_checkout(&request, version, generation, lake_path, entry_count)
    }
}

/// Result of committing a Frost snapshot.
#[derive(Debug)]
pub struct FrostCommitResult {
    /// Whether the command completed.
    pub ok: bool,
    /// New Frost version.
    pub version: u64,
    /// Lake path that was committed.
    pub lake_path: String,
    /// Concise human-readable summary.
    pub message: String,
}

/// The lock of the lake is an immutable checkout.
pub open spec fn immutable_checkout(lock: Option<FrostLockState>) -> bool {
    lock matches Some(l) && l.status == FrostLockStatus::CheckedOut && !l.mutable
}

/// A commit is refused: the lake is an immutable checkout, or tide is open and the caller
/// does not take the lake as the baseline.
pub open spec fn commit_refused(lock: Option<FrostLockState>, unsafe_resolve_all: bool, tide_clear: bool) -> bool {
    immutable_checkout(lock) || (!unsafe_resolve_all && !tide_clear)
}

/// `e` is the error of a refused commit: the immutable checkout first, else the open tide
/// with its count and the tutorial text (the bootstrap text at the empty lock version 0).
pub open spec fn commit_error(
    e: CommandError,
    lock: Option<FrostLockState>,
    open_count: usize,
    tutorial: Option<TutorialSettings>,
    lock_version: u64,
) -> bool {
    if immutable_checkout(lock) {
        e matches CommandError::ImmutableFrostCheckout(v) && v == lock->0.version
    } else {
        e matches CommandError::OpenTide { count, tutorial: t } && count == open_count && t.spec_text()
            == match tutorial {
            Some(s) => crate::report::tutorial_text(s.frost_commit_tide, s.frost_bootstrap_tide, lock_version == 0),
            None => Seq::empty(),
        }
    }
}

/// A completed commit: what is reported, and the lock to write (the current lock of the new
/// version, with no tide resolutions); the lake files are left writable.
#[derive(Debug)]
pub struct FrostCommit {
    /// Reported result.
    pub result: FrostCommitResult,
    /// Lock that records the new current version.
    pub lock: FrostLockState,
}

impl CoreContext {
    /// Whether a commit may go ahead: the lake may not be an immutable checkout, and every
    /// tide workitem must be resolved unless the caller takes the current lake as the
    /// baseline.
    ///
    /// `lock_version` is the Frost version of the lock; at the empty version 0 the tutorial
    /// explains the first commit.
    pub fn frost_commit_allowed(
        &self,
        lock: Option<&FrostLockState>,
        unsafe_resolve_all: bool,
        tide_clear: bool,
        open_count: usize,
        tutorial: Option<TutorialSettings>,
        lock_version: u64,
    ) -> (r: Result<(), CommandError>)
        ensures
            ({
                let l = match lock {
                    Some(x) => Some(*x),
                    None => None,
                };
                &&& r is Err <==> commit_refused(l, unsafe_resolve_all, tide_clear)
                &&& r matches Err(e) ==> commit_error(e, l, open_count, tutorial, lock_version)
            }),
    {
        reject_immutable_checkout(lock)?;
        if unsafe_resolve_all || tide_clear {
            return Ok(());
        }
        Err(
            CommandError::OpenTide {
                count: open_count,
                tutorial: OpenTideTutorial::new(tutorial, lock_version == 0),
            },
        )
    }

    /// The commit of the lake at `lake_path`, which the Frost store recorded as version
    /// `version` of generation `generation`; refused exactly where [`Self::frost_commit_allowed`]
    /// refuses, with the same error.
    pub fn frost_commit(
        &self,
        lock: Option<&FrostLockState>,
        unsafe_resolve_all: bool,
        tide_clear: bool,
        open_count: usize,
        tutorial: Option<TutorialSettings>,
        lock_version: u64,
        version: u64,
        generation: u64,
        lake_path: &str,
    ) -> (r: Result<FrostCommit, CommandError>)
        ensures
            ({
                let l = match lock {
                    Some(x) => Some(*x),
                    None => None,
                };
                &&& r is Err <==> commit_refused(l, unsafe_resolve_all, tide_clear)
                &&& r matches Err(e) ==> commit_error(e, l, open_count, tutorial, lock_version)
                &&& r matches Ok(c) ==> c.result.ok && c.result.version == version && c.result.lake_path@
                    == lake_path@ && c.result.message@ == "froze version "@ + decimal(version as nat)
                    + " from "@ + lake_path@ && c.lock == current_lock(version, generation)
            }),
    {
        self.frost_commit_allowed(lock, unsafe_resolve_all, tide_clear, open_count, tutorial, lock_version)?;
        let mut message = String::new();
        push_str(&mut message, "froze version ");
        push_decimal_u64(&mut message, version);
        push_str(&mut message, " from ");
        push_str(&mut message, lake_path);
        Ok(
            FrostCommit {
                result: FrostCommitResult { ok: true, version, lake_path: owned(lake_path), message },
                lock: FrostLockState { status: FrostLockStatus::Current, version, generation, mutable: false },
            },
        )
    }
}

/// Result of initializing Frost.
#[derive(Debug)]
pub struct FrostInitResult {
    /// Whether the command completed.
    pub ok: bool,
    /// Configured Frost path.
    pub frost_path: String,
    /// Current Frost version.
    pub version: u64,
    /// Concise human-readable summary.
    pub message: String,
}

/// Initialized Frost: what is reported, and the lock to write.
#[derive(Debug)]
pub struct FrostInit {
    /// Reported result.
    pub result: FrostInitResult,
    /// Current lock of the store's version.
    pub lock: FrostLockState,
}

/// The directory that names the repository: the config's directory where it has one other
/// than `.`, else the working directory.
pub open spec fn repo_dir(config_path: Seq<char>, cwd: Option<Seq<char>>) -> Option<Seq<Seq<char>>> {
    match nonempty_parent(path_components(config_path)) {
        Some(p) => if p == seq![cur_dir()] {
            match cwd {
                Some(c) => Some(path_components(c)),
                None => None,
            }
        } else {
            Some(p)
        },
        None => match cwd {
            Some(c) => Some(path_components(c)),
            None => None,
        },
    }
}

/// Name of the repository: the file name of its directory, else `sirno`.
pub open spec fn repo_name(config_path: Seq<char>, cwd: Option<Seq<char>>) -> Seq<char> {
    match repo_dir(config_path, cwd) {
        Some(d) => file_label(d, "sirno"@),
        None => "sirno"@,
    }
}

/// The default path of a project store next to the config: `<repo>-<suffix>`, where `<repo>`
/// names the repository of the config at `config_path` (`cwd` is the working directory,
/// where it is known).
pub fn default_repo_path(config_path: &str, cwd: Option<&str>, suffix: &str) -> (r: String)
    ensures
        r@ == repo_name(config_path@, match cwd {
            Some(c) => Some(c@),
            None => None,
        }) + "-"@ + suffix@,
{
    let fallback = "sirno";
    proof {
        reveal_strlit("sirno");
    }
    let config = components_of(config_path);
    let dir: Option<Vec<Vec<char>>> = match nonempty_parent_parts(&config) {
        Some(p) => {
            if p.len() == 1 && p[0].len() == 1 && p[0][0] == '.' {
                assert(p@[0]@ =~= cur_dir());
                assert(parts_view(p@)[0] == p@[0]@);
                assert(parts_view(p@) =~= seq![cur_dir()]);
                match cwd {
                    Some(c) => Some(components_of(c)),
                    None => None,
                }
            } else {
                assert(parts_view(p@) != seq![cur_dir()]) by {
                    if parts_view(p@) == seq![cur_dir()] {
                        assert(parts_view(p@)[0] == p@[0]@);
                        assert(p@[0]@ =~= cur_dir());
                    }
                }
                Some(p)
            }
        },
        None => match cwd {
            Some(c) => Some(components_of(c)),
            None => None,
        },
    };
    let mut out = match &dir {
        Some(d) => file_label_of(d, fallback),
        None => fallback.to_string(),
    };
    push_str(&mut out, "-");
    push_str(&mut out, suffix);
    out
}

/// Where Frost goes, and whether the config must record it.
#[derive(Debug)]
pub struct FrostInitPlan {
    /// Frost path to configure.
    pub frost_path: String,
    /// Whether the config has no Frost path yet and must be written.
    pub write_config: bool,
}

/// Where Frost goes: the requested path, else the configured one, else the default; a
/// configured path may not change.
pub fn frost_init_plan(requested: Option<&str>, existing: Option<&str>, default_path: &str) -> (r: Result<
    FrostInitPlan,
    CommandError,
>)
    ensures
        ({
            let chosen = match requested {
                Some(p) => p@,
                None => match existing {
                    Some(e) => e@,
                    None => default_path@,
                },
            };
            match existing {
                Some(e) if !same_path(e@, chosen) => r matches Err(
                    CommandError::FrostAlreadyConfigured(p),
                ) && p@ == e@,
                _ => r matches Ok(plan) && plan.frost_path@ == chosen && plan.write_config
                    == (existing is None),
            }
        }),
{
    let chosen = match requested {
        Some(p) => owned(p),
        None => match existing {
            Some(e) => owned(e),
            None => owned(default_path),
        },
    };
    match existing {
        Some(e) => {
            if !paths_equal(e, chosen.as_str()) {
                return Err(CommandError::FrostAlreadyConfigured(owned(e)));
            }
            Ok(FrostInitPlan { frost_path: chosen, write_config: false })
        },
        None => Ok(FrostInitPlan { frost_path: chosen, write_config: true }),
    }
}

impl CoreContext {
    /// Frost initialized at `frost_path`, whose store reports current version `version` of
    /// generation `generation` (the empty version 0 for a new store): the result, and the
    /// current lock of that version to write.
    pub fn frost_init(&self, frost_path: &str, version: u64, generation: u64) -> (r: FrostInit)
        ensures
            r.result.ok,
            r.result.frost_path@ == frost_path@,
            r.result.version == version,
            r.result.message@ == "initialized frost "@ + frost_path@ + " at version "@ + decimal(
                version as nat,
            ),
            r.lock == current_lock(version, generation),
    {
        let mut message = String::new();
        push_str(&mut message, "initialized frost ");
        push_str(&mut message, frost_path);
        push_str(&mut message, " at version ");
        push_decimal_u64(&mut message, version);
        FrostInit {
            result: FrostInitResult { ok: true, frost_path: owned(frost_path), version, message },
            lock: FrostLockState { status: FrostLockStatus::Current, version, generation, mutable: false },
        }
    }

    /// The result of moving Frost from its configured path to `new_path`, given the outcome
    /// of the move plan; without a configured path the plan does not run.
    pub fn frost_move(
        &self,
        old_path: Option<&str>,
        new_path: &str,
        outcome: Result<bool, crate::relocate::PathMoveError>,
    ) -> (r: Result<MovePathResult, CommandError>)
        ensures
            old_path is None ==> r matches Err(CommandError::FrostNotConfigured),
            match (old_path, outcome) {
                (Some(_), Err(e)) => r matches Err(CommandError::Move(x)) && x@ == e@,
                (Some(o), Ok(moved)) => r matches Ok(m) && m.ok && m.moved == moved && m.old_path@
                    == o@ && m.new_path@ == new_path@ && m.message@ == "moved frost "@ + o@ + " to "@
                    + new_path@,
                (None, _) => true,
            },
    {
        match old_path {
            None => Err(CommandError::FrostNotConfigured),
            Some(o) => {
                let moved = match outcome {
                    Ok(moved) => moved,
                    Err(e) => {
                        return Err(CommandError::Move(e));
                    },
                };
                let mut message = String::new();
                push_str(&mut message, "moved frost ");
                push_str(&mut message, o);
                push_str(&mut message, " to ");
                push_str(&mut message, new_path);
                Ok(
                    MovePathResult {
                        ok: true,
                        moved,
                        old_path: owned(o),
                        new_path: owned(new_path),
                        message,
                    },
                )
            },
        }
    }

    /// Check that a witness lookup can run: the entry exists and repository members are
    /// configured.
    pub fn witness_lookup(&self, id: &EntryAddress, entry_exists: bool, repo_members_configured: bool) -> (r: Result<(), CommandError>)
        ensures
            !entry_exists ==> (r matches Err(CommandError::MissingWitnessEntry(i)) && i@ == id@),
            entry_exists && !repo_members_configured ==> r matches Err(
                CommandError::RepoMembersNotConfigured,
            ),
            entry_exists && repo_members_configured ==> r is Ok,
    {
        if !entry_exists {
            return Err(CommandError::MissingWitnessEntry(id.clone()));
        }
        if !repo_members_configured {
            return Err(CommandError::RepoMembersNotConfigured);
        }
        Ok(())
    }
}

/// Which part of the tide a status report shows.
#[derive(Clone, Copy, Debug, PartialEq, Eq, Structural)]
pub enum TideStatusMode {
    /// Only the entries that still need review.
    Review,
    /// The open workitems as well.
    Full,
    /// Every workitem, resolved ones included.
    All,
}

impl TideStatusMode {
    /// Whether the report lists workitems.
    pub fn includes_workitems(self) -> (r: bool)
        ensures
            r == !(self is Review),
    {
        !matches!(self, TideStatusMode::Review)
    }

    /// Whether the report lists resolved workitems.
    pub fn includes_resolved(self) -> (r: bool)
        ensures
            r == (self is All),
    {
        matches!(self, TideStatusMode::All)
    }
}

/// The statuses a report lists, in order: all of them, or the open ones.
pub open spec fn statuses_for_output(ss: Seq<StatusView>, all: bool) -> Seq<StatusView>
    decreases ss.len(),
{
    if ss.len() == 0 {
        Seq::empty()
    } else {
        let rest = statuses_for_output(ss.drop_last(), all);
        if all || !ss.last().resolved {
            rest.push(ss.last())
        } else {
            rest
        }
    }
}

/// The statuses a report lists, in order: all of them, or the open ones.
pub fn tide_statuses_for_output(statuses: &[TideStatus], all: bool) -> (r: Vec<TideStatus>)
    ensures
        statuses_view(r@) == statuses_for_output(statuses_view(statuses@), all),
{
    let ghost ss = statuses_view(statuses@);
    let mut out: Vec<TideStatus> = Vec::new();
    let mut i: usize = 0;
    assert(ss.take(0) =~= Seq::<StatusView>::empty());
    while i < statuses.len()
        invariant
            i <= ss.len(),
            ss == statuses_view(statuses@),
            statuses_view(out@) == statuses_for_output(ss.take(i as int), all),
        decreases ss.len() - i,
    {
        assert(ss.take(i + 1).drop_last() =~= ss.take(i as int));
        assert(ss.take(i + 1).last() == statuses@[i as int]@);
        if all || !statuses[i].resolved {
            let c = statuses[i].clone();
            let ghost before = statuses_view(out@);
            out.push(c);
            assert(statuses_view(out@) =~= before.push(statuses@[i as int]@));
        }
        i = i + 1;
    }
    assert(ss.take(i as int) =~= ss);
    out
}

/// Tide status report.
#[derive(Debug)]
pub struct TideStatusResult {
    /// Whether no entry needs review.
    pub ok: bool,
    /// Entries that still need review.
    pub review_entries: Vec<EntryAddress>,
    /// Listed workitem statuses.
    pub statuses: Vec<TideStatus>,
}

impl CoreContext {
    /// The statuses of the current tide that a report in `mode` lists.
    pub fn tide_statuses(&self, mode: TideStatusMode, statuses: &[TideStatus]) -> (r: Vec<TideStatus>)
        ensures
            statuses_view(r@) == statuses_for_output(statuses_view(statuses@), mode is All),
    {
        tide_statuses_for_output(statuses, mode.includes_resolved())
    }

    /// The entries with open workitems in the current tide, sorted, each once.
    pub fn tide_review_entries(&self, statuses: &[TideStatus]) -> (r: Vec<EntryAddress>)
        ensures
            addresses_view(r@) == key_set(statuses_view(statuses@), false, true),
    {
        tide_review_entries_from_statuses(statuses)
    }

    /// The tide status report: the review entries and, in modes that list them, statuses.
    pub fn tide_status(&self, mode: TideStatusMode, review_entries: Vec<EntryAddress>, statuses: &[TideStatus]) -> (r: TideStatusResult)
        ensures
            r.ok == (review_entries@.len() == 0),
            r.review_entries@ == review_entries@,
            statuses_view(r.statuses@) == if mode is Review {
                Seq::empty()
            } else {
                statuses_for_output(statuses_view(statuses@), mode is All)
            },
    {
        let listed = if mode.includes_workitems() {
            tide_statuses_for_output(statuses, mode.includes_resolved())
        } else {
            let v: Vec<TideStatus> = Vec::new();
            assert(statuses_view(v@) =~= Seq::<StatusView>::empty());
            v
        };
        TideStatusResult { ok: review_entries.len() == 0, review_entries, statuses: listed }
    }
}

/// Workitems selected by neighbor or exactly.
#[derive(Debug)]
pub struct TideSelectionRequest {
    /// Select every workitem whose neighbor is one of these entries.
    pub neighbors: Vec<EntryAddress>,
    /// Select these workitems.
    pub workitems: Vec<TideWorkitem>,
}

/// Workitems to resolve.
#[derive(Debug)]
pub struct TideResolveRequest {
    /// Resolve the workitems whose neighbor is in the current ripple set.
    pub infer: bool,
    /// Select every workitem whose neighbor is one of these entries.
    pub neighbors: Vec<EntryAddress>,
    /// Select these workitems.
    pub workitems: Vec<TideWorkitem>,
}

/// Spec view of a workitem: ripple, field, direction, neighbor.
pub open spec fn workitem_view(w: TideWorkitem) -> (Seq<char>, Seq<char>, StructuralEdgeDirection, Seq<char>) {
    (w.ripple@, w.field@, w.direction, w.neighbor@)
}

/// Views of workitems.
pub open spec fn workitems_view(v: Seq<TideWorkitem>) -> Seq<(Seq<char>, Seq<char>, StructuralEdgeDirection, Seq<char>)> {
    v.map_values(|w: TideWorkitem| workitem_view(w))
}

/// A status is selected when its neighbor is named, or its workitem is.
pub open spec fn selected(
    neighbors: Seq<Seq<char>>,
    workitems: Seq<(Seq<char>, Seq<char>, StructuralEdgeDirection, Seq<char>)>,
    s: StatusView,
) -> bool {
    neighbors.contains(s.neighbor) || workitems.contains((s.ripple, s.field, s.direction, s.neighbor))
}

/// Whether a status is one of the selected workitems.
fn selection_matches(neighbors: &[EntryAddress], workitems: &[TideWorkitem], status: &TideStatus) -> (r: bool)
    ensures
        r == selected(addresses_view(neighbors@), workitems_view(workitems@), status@),
{
    let ghost ns = addresses_view(neighbors@);
    let ghost ws = workitems_view(workitems@);
    let ghost key = (status@.ripple, status@.field, status@.direction, status@.neighbor);
    let mut i: usize = 0;
    while i < neighbors.len()
        invariant
            i <= ns.len(),
            ns == addresses_view(neighbors@),
            forall|k: int| 0 <= k < i ==> ns[k] != status@.neighbor,
        decreases ns.len() - i,
    {
        if neighbors[i].same(&status.workitem.neighbor) {
            assert(ns[i as int] == status@.neighbor);
            return true;
        }
        i = i + 1;
    }
    assert(!ns.contains(status@.neighbor));
    let mut j: usize = 0;
    while j < workitems.len()
        invariant
            j <= ws.len(),
            ws == workitems_view(workitems@),
            !ns.contains(status@.neighbor),
            key == (status@.ripple, status@.field, status@.direction, status@.neighbor),
            forall|k: int| 0 <= k < j ==> ws[k] != key,
        decreases ws.len() - j,
    {
        let w = &workitems[j];
        assert(ws[j as int] == workitem_view(*w));
        if w.ripple.same(&status.workitem.ripple) && crate::text::str_eq(w.field.as_str(), status.workitem.field.as_str())
            && w.direction == status.workitem.direction && w.neighbor.same(&status.workitem.neighbor) {
            assert(ws[j as int] == key);
            return true;
        }
        j = j + 1;
    }
    assert(!ws.contains(key));
    false
}

/// Whether a resolve request selects a status.
pub fn tide_selection_matches(request: &TideResolveRequest, status: &TideStatus) -> (r: bool)
    ensures
        r == selected(addresses_view(request.neighbors@), workitems_view(request.workitems@), status@),
{
    selection_matches(request.neighbors.as_slice(), request.workitems.as_slice(), status)
}

/// Whether a selection request selects a status.
pub fn tide_selection_request_matches(request: &TideSelectionRequest, status: &TideStatus) -> (r: bool)
    ensures
        r == selected(addresses_view(request.neighbors@), workitems_view(request.workitems@), status@),
{
    selection_matches(request.neighbors.as_slice(), request.workitems.as_slice(), status)
}

/// One item of a selection: a neighbor entry or a full workitem.
#[derive(Debug)]
pub enum TideItemSelector {
    /// Every workitem whose neighbor is this entry.
    Neighbor(EntryAddress),
    /// This workitem.
    Workitem(TideWorkitem),
}

/// Neighbors named by selector items, in order.
pub open spec fn selector_neighbors(items: Seq<TideItemSelector>) -> Seq<Seq<char>>
    decreases items.len(),
{
    if items.len() == 0 {
        Seq::empty()
    } else {
        let rest = selector_neighbors(items.drop_last());
        match items.last() {
            TideItemSelector::Neighbor(id) => rest.push(id@),
            TideItemSelector::Workitem(_) => rest,
        }
    }
}

/// Workitems named by selector items, in order.
pub open spec fn selector_workitems(items: Seq<TideItemSelector>) -> Seq<(Seq<char>, Seq<char>, StructuralEdgeDirection, Seq<char>)>
    decreases items.len(),
{
    if items.len() == 0 {
        Seq::empty()
    } else {
        let rest = selector_workitems(items.drop_last());
        match items.last() {
            TideItemSelector::Neighbor(_) => rest,
            TideItemSelector::Workitem(w) => rest.push(workitem_view(w)),
        }
    }
}

/// The selection that selector items make.
pub fn tide_selection_from_items(items: Vec<TideItemSelector>) -> (r: TideSelectionRequest)
    ensures
        addresses_view(r.neighbors@) == selector_neighbors(items@),
        workitems_view(r.workitems@) == selector_workitems(items@),
{
    let ghost all = items@;
    let total: usize = items.len();
    let mut neighbors: Vec<EntryAddress> = Vec::new();
    let mut workitems: Vec<TideWorkitem> = Vec::new();
    let mut rest = items;
    let mut n: usize = 0;
    assert(rest@ =~= all.subrange(0, all.len() as int));
    assert(all.take(0) =~= Seq::<TideItemSelector>::empty());
    while rest.len() > 0
        invariant
            n + rest@.len() == all.len(),
            all.len() == total,
            rest@ == all.subrange(n as int, all.len() as int),
            addresses_view(neighbors@) == selector_neighbors(all.take(n as int)),
            workitems_view(workitems@) == selector_workitems(all.take(n as int)),
        decreases rest@.len(),
    {
        let item = rest.remove(0);
        assert(item == all[n as int]);
        assert(all.take(n + 1).drop_last() =~= all.take(n as int));
        assert(all.take(n + 1).last() == all[n as int]);
        let ghost nb = addresses_view(neighbors@);
        let ghost wb = workitems_view(workitems@);
        match item {
            TideItemSelector::Neighbor(id) => {
                neighbors.push(id);
                assert(addresses_view(neighbors@) =~= nb.push(all[n as int]->Neighbor_0@));
            },
            TideItemSelector::Workitem(w) => {
                workitems.push(w);
                assert(workitems_view(workitems@) =~= wb.push(workitem_view(all[n as int]->Workitem_0)));
            },
        }
        n = n + 1;
        assert(rest@ =~= all.subrange(n as int, all.len() as int));
    }
    assert(all.take(n as int) =~= all);
    TideSelectionRequest { neighbors, workitems }
}

/// Result of changing tide resolutions.
#[derive(Debug)]
pub struct TideChangeResult {
    /// Whether the command completed.
    pub ok: bool,
    /// Number of workitems changed.
    pub count: usize,
    /// Concise human-readable summary.
    pub message: String,
}

/// A change result with message `before COUNT after`.
fn tide_change(count: usize, before: &str, after: &str) -> (r: TideChangeResult)
    ensures
        r.ok,
        r.count == count,
        r.message@ == before@ + decimal(count as nat) + after@,
{
    let mut message = String::new();
    push_str(&mut message, before);
    push_decimal(&mut message, count);
    push_str(&mut message, after);
    TideChangeResult { ok: true, count, message }
}

impl CoreContext {
    /// The result of resolving `count` workitems.
    pub fn tide_resolve(&self, count: usize) -> (r: TideChangeResult)
        ensures
            r.ok,
            r.count == count,
            r.message@ == "resolved "@ + decimal(count as nat) + " tide workitems"@,
    {
        tide_change(count, "resolved ", " tide workitems")
    }

    /// The result of reopening `count` resolved workitems.
    pub fn tide_unresolve(&self, count: usize) -> (r: TideChangeResult)
        ensures
            r.ok,
            r.count == count,
            r.message@ == "unresolved "@ + decimal(count as nat) + " tide workitems"@,
    {
        tide_change(count, "unresolved ", " tide workitems")
    }

    /// Clear the tide resolutions recorded in the lock; the result counts what was cleared.
    /// The resolutions are empty afterwards, so a reset that follows clears 0.
    pub fn tide_reset<T>(&self, resolutions: &mut Vec<T>) -> (r: TideChangeResult)
        ensures
            final(resolutions)@ == Seq::<T>::empty(),
            r.ok,
            r.count == old(resolutions)@.len(),
            r.message@ == "cleared "@ + decimal(r.count as nat) + " tide resolutions"@,
    {
        let count = resolutions.len();
        resolutions.clear();
        tide_change(count, "cleared ", " tide resolutions")
    }
}

/// The three lines of one structural field in a status report.
pub open spec fn structural_status_lines(fs: Seq<StructuralFieldStatus>) -> Seq<char>
    decreases fs.len(),
{
    if fs.len() == 0 {
        Seq::empty()
    } else {
        structural_status_lines(fs.drop_last()) + field_status_lines(fs.last())
    }
}

/// The lines of one structural field: its outgoing, incoming and shared-target settings.
pub open spec fn field_status_lines(f: StructuralFieldStatus) -> Seq<char> {
    "  "@ + f.field@ + ".to: "@ + f.to@ + "\n"@ + "  "@ + f.field@ + ".from: "@ + f.from@ + "\n"@
        + "  "@ + f.field@ + ".clique: "@ + f.clique@ + "\n"@
}

/// Append the lines of one structural field.
fn push_field_status(out: &mut String, f: &StructuralFieldStatus)
    ensures
        final(out)@ == old(out)@ + field_status_lines(*f),
{
    let ghost start = out@;
    push_str(out, "  ");
    push_str(out, f.field.as_str());
    push_str(out, ".to: ");
    push_str(out, f.to.as_str());
    push_str(out, "\n");
    push_str(out, "  ");
    push_str(out, f.field.as_str());
    push_str(out, ".from: ");
    push_str(out, f.from.as_str());
    push_str(out, "\n");
    push_str(out, "  ");
    push_str(out, f.field.as_str());
    push_str(out, ".clique: ");
    push_str(out, f.clique.as_str());
    push_str(out, "\n");
    assert(out@ =~= start + field_status_lines(*f));
}

/// `true` or `false`.
pub open spec fn flag_text(b: bool) -> Seq<char> {
    if b {
        "true"@
    } else {
        "false"@
    }
}

/// The mono line of a status report.
pub open spec fn mono_line(r: &StatusResult) -> Seq<char> {
    match &r.mono_path {
        Some(m) => "mono: "@ + m@ + "\n"@,
        None => "mono: (not configured)\n"@,
    }
}

/// The frost lines of a status report.
pub open spec fn frost_lines(r: &StatusResult) -> Seq<char> {
    match &r.frost_path {
        Some(f) => "frost: "@ + f@ + "\n"@ + "frost-state: "@ + r.frost_state@ + "\n"@,
        None => "frost: (not configured)\n"@,
    }
}

/// The count and settings lines of a status report.
pub open spec fn status_counts(r: &StatusResult) -> Seq<char> {
    "entries: "@ + decimal(r.entry_count as nat) + "\n"@ + "checks:\n"@ + "  render: "@
        + flag_text(r.check_render) + "\n"@ + "structural:\n"@
}

/// The path and count lines of a status report.
pub open spec fn status_head(r: &StatusResult) -> Seq<char> {
    "config: "@ + r.config_path@ + "\n"@ + mono_line(r) + "lake: "@ + r.lake_path@ + "\n"@
        + frost_lines(r) + status_counts(r)
}

/// The check outcome of a status report.
pub open spec fn status_check(r: &StatusResult) -> Seq<char> {
    if r.ok {
        "check: ok\n"@
    } else {
        "check: failed\n"@ + diagnostic_lines(r.check.diagnostics@)
    }
}

/// Human output of a project status.
pub open spec fn status_text(r: &StatusResult) -> Seq<char> {
    status_head(r) + structural_status_lines(r.structural_fields@) + status_check(r)
}

/// Append the mono line.
fn push_mono_line(out: &mut String, result: &StatusResult)
    ensures
        final(out)@ == old(out)@ + mono_line(result),
{
    match &result.mono_path {
        Some(m) => {
            push_str(out, "mono: ");
            push_str(out, m.as_str());
            push_str(out, "\n");
        },
        None => {
            push_str(out, "mono: (not configured)\n");
        },
    }
}

/// Append the frost lines.
fn push_frost_lines(out: &mut String, result: &StatusResult)
    ensures
        final(out)@ == old(out)@ + frost_lines(result),
{
    match &result.frost_path {
        Some(f) => {
            push_str(out, "frost: ");
            push_str(out, f.as_str());
            push_str(out, "\n");
            push_str(out, "frost-state: ");
            push_str(out, result.frost_state.as_str());
            push_str(out, "\n");
        },
        None => {
            push_str(out, "frost: (not configured)\n");
        },
    }
}

/// Append the count and settings lines.
fn push_status_counts(out: &mut String, result: &StatusResult)
    ensures
        final(out)@ == old(out)@ + status_counts(result),
{
    push_str(out, "entries: ");
    push_decimal(out, result.entry_count);
    push_str(out, "\n");
    push_str(out, "checks:\n");
    push_str(out, "  render: ");
    if result.check_render {
        push_str(out, "true");
    } else {
        push_str(out, "false");
    }
    push_str(out, "\n");
    push_str(out, "structural:\n");
}

/// Append the path and count lines of a status report.
fn push_status_head(out: &mut String, result: &StatusResult)
    ensures
        final(out)@ == old(out)@ + status_head(result),
{
    let ghost start = out@;
    push_str(out, "config: ");
    push_str(out, result.config_path.as_str());
    push_str(out, "\n");
    push_mono_line(out, result);
    push_str(out, "lake: ");
    push_str(out, result.lake_path.as_str());
    push_str(out, "\n");
    push_frost_lines(out, result);
    push_status_counts(out, result);
    assert(out@ =~= start + status_head(result));
}

/// Human output of a project status: paths, lock state, entry count, check settings,
/// structural fields, then the check outcome.
pub fn format_status_result(result: &StatusResult) -> (r: String)
    ensures
        r@ == status_text(result),
{
    let mut out = String::new();
    push_status_head(&mut out, result);
    let ghost head = out@;
    let fs = &result.structural_fields;
    let mut i: usize = 0;
    assert(fs@.take(0) =~= Seq::<StructuralFieldStatus>::empty());
    assert(head =~= status_head(result) + structural_status_lines(fs@.take(0)));
    while i < fs.len()
        invariant
            i <= fs@.len(),
            head == status_head(result) + Seq::<char>::empty(),
            out@ == status_head(result) + structural_status_lines(fs@.take(i as int)),
        decreases fs@.len() - i,
    {
        let f = &fs[i];
        assert(fs@.take(i + 1).drop_last() =~= fs@.take(i as int));
        assert(fs@.take(i + 1).last() == *f);
        push_field_status(&mut out, f);
        i = i + 1;
        assert(out@ =~= status_head(result) + structural_status_lines(fs@.take(i as int)));
    }
    assert(fs@.take(i as int) =~= fs@);
    let ghost before_check = out@;
    if result.ok {
        push_str(&mut out, "check: ok\n");
    } else {
        push_str(&mut out, "check: failed\n");
        let lines = crate::output::format_diagnostic_lines(result.check.diagnostics.as_slice());
        push_str(&mut out, lines.as_str());
    }
    assert(out@ =~= before_check + status_check(result));
    out
}

/// One structural matcher of a query.
#[derive(Debug)]
pub enum StructuralMatcher {
    /// The field links one of these entries.
    Targets(Vec<EntryAddress>),
    /// The field is in this state.
    State(StructuralFieldState),
}

/// Spec view of a matcher.
pub enum MatcherView {
    /// Targets, as texts.
    Targets(Seq<Seq<char>>),
    /// A field state.
    State(StructuralFieldState),
}

/// Spec view of a matcher.
pub open spec fn matcher_view(m: StructuralMatcher) -> MatcherView {
    match m {
        StructuralMatcher::Targets(ts) => MatcherView::Targets(addresses_view(ts@)),
        StructuralMatcher::State(s) => MatcherView::State(s),
    }
}

/// The matchers of target filters, then of state filters, each with its field.
pub open spec fn matcher_items(filters: Seq<StructuralFilter>, states: Seq<StructuralStateFilter>) -> Seq<(Seq<char>, MatcherView)> {
    filters.map_values(|f: StructuralFilter| (f.field@, MatcherView::Targets(addresses_view(f.targets@))))
        + states.map_values(|s: StructuralStateFilter| (s.field@, MatcherView::State(s.state)))
}

/// Position of the group of field `k`, or -1.
pub open spec fn group_index(g: Seq<(Seq<char>, Seq<MatcherView>)>, k: Seq<char>) -> int
    decreases g.len(),
{
    if g.len() == 0 {
        -1
    } else if g.last().0 == k {
        if group_index(g.drop_last(), k) >= 0 {
            group_index(g.drop_last(), k)
        } else {
            g.len() - 1
        }
    } else {
        group_index(g.drop_last(), k)
    }
}

/// Add a matcher to the group of its field, making the group when the field is new.
pub open spec fn add_to_group(g: Seq<(Seq<char>, Seq<MatcherView>)>, k: Seq<char>, m: MatcherView) -> Seq<(Seq<char>, Seq<MatcherView>)> {
    let i = group_index(g, k);
    if i >= 0 {
        g.update(i, (k, g[i].1.push(m)))
    } else {
        g.push((k, seq![m]))
    }
}

/// Matchers grouped by field, fields in order of first appearance.
pub open spec fn group_matchers(items: Seq<(Seq<char>, MatcherView)>) -> Seq<(Seq<char>, Seq<MatcherView>)>
    decreases items.len(),
{
    if items.len() == 0 {
        Seq::empty()
    } else {
        add_to_group(group_matchers(items.drop_last()), items.last().0, items.last().1)
    }
}

/// Index of the first item whose field is not configured, or -1.
pub open spec fn first_unconfigured_item(items: Seq<(Seq<char>, MatcherView)>, rs: Seq<(Seq<char>, Option<Seq<char>>)>) -> int
    decreases items.len(),
{
    if items.len() == 0 {
        -1
    } else if first_unconfigured_item(items.drop_last(), rs) >= 0 {
        first_unconfigured_item(items.drop_last(), rs)
    } else if !has_relation(rs, items.last().0) {
        items.len() - 1
    } else {
        -1
    }
}

proof fn lemma_group_index(g: Seq<(Seq<char>, Seq<MatcherView>)>, k: Seq<char>)
    ensures
        -1 <= group_index(g, k) < g.len(),
        group_index(g, k) >= 0 ==> g[group_index(g, k)].0 == k,
        group_index(g, k) < 0 ==> forall|i: int| 0 <= i < g.len() ==> (#[trigger] g[i]).0 != k,
        group_index(g, k) >= 0 ==> forall|i: int| 0 <= i < group_index(g, k) ==> (#[trigger] g[i]).0 != k,
    decreases g.len(),
{
    if g.len() > 0 {
        lemma_group_index(g.drop_last(), k);
        assert forall|i: int| 0 <= i < g.len() - 1 implies g[i] == g.drop_last()[i] by {}
    }
}

/// Group query matchers by field, fields in order of first appearance: target filters
/// first, then state filters; every field must be configured.
pub fn structural_matchers_by_field(
    filters: Vec<StructuralFilter>,
    states: Vec<StructuralStateFilter>,
    structural: &StructuralSettings,
) -> (r: Result<Vec<(String, Vec<StructuralMatcher>)>, CommandError>)
    ensures
        ({
            let items = matcher_items(filters@, states@);
            let bad = first_unconfigured_item(items, structural@);
            &&& bad >= 0 ==> (r matches Err(CommandError::UnconfiguredStructuralField(f)) && f@ == items[bad].0)
            &&& bad < 0 ==> (r matches Ok(g) && g@.map_values(
                |e: (String, Vec<StructuralMatcher>)| (e.0@, e.1@.map_values(|m: StructuralMatcher| matcher_view(m))),
            ) == group_matchers(items))
        }),
{
    let ghost items = matcher_items(filters@, states@);
    let filter_count: usize = filters.len();
    let state_count: usize = states.len();
    let mut groups: Vec<(String, Vec<StructuralMatcher>)> = Vec::new();
    let mut pending: Vec<(String, StructuralMatcher)> = Vec::new();
    let mut rest_filters = filters;
    let mut n: usize = 0;
    let ghost fs = rest_filters@;
    assert(rest_filters@ =~= fs.subrange(0, fs.len() as int));
    while rest_filters.len() > 0
        invariant
            n + rest_filters@.len() == fs.len(),
            fs.len() == filter_count,
            rest_filters@ == fs.subrange(n as int, fs.len() as int),
            pending@.map_values(|e: (String, StructuralMatcher)| (e.0@, matcher_view(e.1))) == fs.take(n as int).map_values(
                |f: StructuralFilter| (f.field@, MatcherView::Targets(addresses_view(f.targets@))),
            ),
        decreases rest_filters@.len(),
    {
        let ghost before = rest_filters@;
        let f = rest_filters.remove(0);
        assert(f == fs[n as int]);
        assert(rest_filters@ =~= fs.subrange(n + 1, fs.len() as int));
        let ghost pv = pending@.map_values(|e: (String, StructuralMatcher)| (e.0@, matcher_view(e.1)));
        let StructuralFilter { field, targets } = f;
        pending.push((field, StructuralMatcher::Targets(targets)));
        assert(pending@.map_values(|e: (String, StructuralMatcher)| (e.0@, matcher_view(e.1))) =~= pv.push(
            (fs[n as int].field@, MatcherView::Targets(addresses_view(fs[n as int].targets@))),
        ));
        n = n + 1;
        assert(fs.take(n as int) =~= fs.take(n - 1).push(fs[n - 1]));
    }
    assert(fs.take(n as int) =~= fs);
    let mut rest_states = states;
    let ghost ss = rest_states@;
    let ghost first_part = pending@.map_values(|e: (String, StructuralMatcher)| (e.0@, matcher_view(e.1)));
    let mut m: usize = 0;
    assert(rest_states@ =~= ss.subrange(0, ss.len() as int));
    assert(ss.take(0).map_values(|s: StructuralStateFilter| (s.field@, MatcherView::State(s.state))) =~= Seq::<(Seq<char>, MatcherView)>::empty());
    assert(first_part + Seq::<(Seq<char>, MatcherView)>::empty() =~= first_part);
    while rest_states.len() > 0
        invariant
            m + rest_states@.len() == ss.len(),
            ss.len() == state_count,
            rest_states@ == ss.subrange(m as int, ss.len() as int),
            pending@.map_values(|e: (String, StructuralMatcher)| (e.0@, matcher_view(e.1))) == first_part
                + ss.take(m as int).map_values(|s: StructuralStateFilter| (s.field@, MatcherView::State(s.state))),
        decreases rest_states@.len(),
    {
        let st = rest_states.remove(0);
        assert(st == ss[m as int]);
        assert(rest_states@ =~= ss.subrange(m + 1, ss.len() as int));
        let ghost pv = pending@.map_values(|e: (String, StructuralMatcher)| (e.0@, matcher_view(e.1)));
        let StructuralStateFilter { field, state } = st;
        pending.push((field, StructuralMatcher::State(state)));
        assert(pending@.map_values(|e: (String, StructuralMatcher)| (e.0@, matcher_view(e.1))) =~= pv.push(
            (ss[m as int].field@, MatcherView::State(ss[m as int].state)),
        ));
        m = m + 1;
        assert(ss.take(m as int).map_values(|s: StructuralStateFilter| (s.field@, MatcherView::State(s.state))) =~= ss.take(
            m - 1,
        ).map_values(|s: StructuralStateFilter| (s.field@, MatcherView::State(s.state))).push(
            (ss[m - 1].field@, MatcherView::State(ss[m - 1].state)),
        ));
    }
    assert(ss.take(m as int) =~= ss);
    assert(pending@.map_values(|e: (String, StructuralMatcher)| (e.0@, matcher_view(e.1))) =~= items);
    let total: usize = pending.len();
    let mut k: usize = 0;
    assert(items.take(0) =~= Seq::<(Seq<char>, MatcherView)>::empty());
    assert(pending@ =~= pending@.subrange(0, pending@.len() as int));
    let ghost ps = pending@;
    while pending.len() > 0
        invariant
            k + pending@.len() == items.len(),
            items.len() == total,
            pending@ == ps.subrange(k as int, ps.len() as int),
            ps.map_values(|e: (String, StructuralMatcher)| (e.0@, matcher_view(e.1))) == items,
            items == matcher_items(fs, ss),
            fs == filters@,
            ss == states@,
            first_unconfigured_item(items.take(k as int), structural@) < 0,
            groups@.map_values(
                |e: (String, Vec<StructuralMatcher>)| (e.0@, e.1@.map_values(|mm: StructuralMatcher| matcher_view(mm))),
            ) == group_matchers(items.take(k as int)),
        decreases pending@.len(),
    {
        let (field, matcher) = pending.remove(0);
        assert(pending@ =~= ps.subrange(k + 1, ps.len() as int));
        assert(items[k as int] == (field@, matcher_view(matcher)));
        assert(items.take(k + 1).drop_last() =~= items.take(k as int));
        assert(items.take(k + 1).last() == items[k as int]);
        if !structural.contains_field(field.as_str()) {
            proof {
                // Every earlier item is configured, so this one is the first that is not.
                assert(first_unconfigured_item(items.take(k + 1), structural@) == k as int);
                lemma_first_unconfigured_prefix(items, k as int + 1, structural@);
            }
            return Err(CommandError::UnconfiguredStructuralField(field));
        }
        let ghost gv = groups@.map_values(
            |e: (String, Vec<StructuralMatcher>)| (e.0@, e.1@.map_values(|mm: StructuralMatcher| matcher_view(mm))),
        );
        proof {
            lemma_group_index(gv, field@);
        }
        let mut q: usize = 0;
        while q < groups.len() && !crate::text::str_eq(groups[q].0.as_str(), field.as_str())
            invariant
                q <= groups@.len(),
                gv == groups@.map_values(
                    |e: (String, Vec<StructuralMatcher>)| (e.0@, e.1@.map_values(|mm: StructuralMatcher| matcher_view(mm))),
                ),
                forall|i: int| 0 <= i < q ==> (#[trigger] gv[i]).0 != field@,
            decreases groups@.len() - q,
        {
            assert(gv[q as int].0 == groups@[q as int].0@);
            q = q + 1;
        }
        let ghost mv = matcher_view(matcher);
        if q < groups.len() {
            assert(gv[q as int].0 == field@);
            assert(group_index(gv, field@) == q as int);
            let (gfield, mut ms) = groups.remove(q);
            let ghost msv = ms@.map_values(|mm: StructuralMatcher| matcher_view(mm));
            ms.push(matcher);
            assert(ms@.map_values(|mm: StructuralMatcher| matcher_view(mm)) =~= msv.push(mv));
            groups.insert(q, (gfield, ms));
            assert(groups@.map_values(
                |e: (String, Vec<StructuralMatcher>)| (e.0@, e.1@.map_values(|mm: StructuralMatcher| matcher_view(mm))),
            ) =~= gv.update(q as int, (field@, gv[q as int].1.push(mv))));
        } else {
            assert(group_index(gv, field@) < 0);
            let mut ms: Vec<StructuralMatcher> = Vec::new();
            ms.push(matcher);
            assert(ms@.map_values(|mm: StructuralMatcher| matcher_view(mm)) =~= seq![mv]);
            groups.push((field, ms));
            assert(groups@.map_values(
                |e: (String, Vec<StructuralMatcher>)| (e.0@, e.1@.map_values(|mm: StructuralMatcher| matcher_view(mm))),
            ) =~= gv.push((items[k as int].0, seq![mv])));
        }
        k = k + 1;
    }
    assert(items.take(k as int) =~= items);
    Ok(groups)
}

/// Once an item is unconfigured, it stays the first unconfigured item of longer prefixes.
proof fn lemma_first_unconfigured_prefix(items: Seq<(Seq<char>, MatcherView)>, n: int, rs: Seq<(Seq<char>, Option<Seq<char>>)>)
    requires
        0 <= n <= items.len(),
        first_unconfigured_item(items.take(n), rs) >= 0,
    ensures
        first_unconfigured_item(items, rs) == first_unconfigured_item(items.take(n), rs),
    decreases items.len() - n,
{
    if n < items.len() {
        assert(items.take(n + 1).drop_last() =~= items.take(n));
        lemma_first_unconfigured_prefix(items, n + 1, rs);
    } else {
        assert(items.take(n) =~= items);
    }
}

} // verus!
