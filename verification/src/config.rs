//! Project configuration of a managed repository.
//!
//! A repository is managed when it holds `Sirno.toml`. The config names the lake,
//! and may opt into repository witness members, upstream lakes and check settings.

use vstd::prelude::*;

use crate::address::{EntryAddress, EntryAtom};
use crate::artifact::{has_parent_part, cur_dir};
use crate::structural::{StructuralEdgeDirection, StructuralSettings, has_relation, malformed_field_name, reserved_field_name, validate_structural_field_name, FieldNameError};
use crate::text::{chars_of, lines_of, owned, push_char, push_str, split_on, split_slice, trim, trim_slice, str_eq};

verus! {

/// Canonical project config filename.
pub const CONFIG_FILE_NAME: &'static str = "Sirno.toml";

/// Canonical witness delimiter capture for every legal entry address.
///
/// Reserved address checks that regex syntax cannot express are enforced by `EntryAddress`.
pub const WITNESS_ENTRY_ADDRESS_CAPTURE_REGEX: &'static str = "([^\\x00-\\x1F\\x7F<>:\"/\\\\|?*,\\r\\n]+)";

/// Standard opening delimiter regex for line-comment repository witness blocks.
pub const STANDARD_LINE_WITNESS_BEGIN_REGEX: &'static str = "(?m)^[ \\t]*//[ \\t]*sirno:witness:([^\\x00-\\x1F\\x7F<>:\"/\\\\|?*,\\r\\n]+):begin";

/// Standard closing delimiter regex for line-comment repository witness blocks.
pub const STANDARD_LINE_WITNESS_END_REGEX: &'static str = "(?m)^[ \\t]*//[ \\t]*sirno:witness:([^\\x00-\\x1F\\x7F<>:\"/\\\\|?*,\\r\\n]+):end";

/// Standard opening delimiter regex for Markdown repository witness blocks.
pub const STANDARD_MARKDOWN_WITNESS_BEGIN_REGEX: &'static str = "(?m)^[ \\t]*<!--[ \\t]*sirno:witness:([^\\x00-\\x1F\\x7F<>:\"/\\\\|?*,\\r\\n]+):begin[ \\t]*-->";

/// Standard closing delimiter regex for Markdown repository witness blocks.
pub const STANDARD_MARKDOWN_WITNESS_END_REGEX: &'static str = "(?m)^[ \\t]*<!--[ \\t]*sirno:witness:([^\\x00-\\x1F\\x7F<>:\"/\\\\|?*,\\r\\n]+):end[ \\t]*-->";

/// Settings for optional check families; an absent flag is enabled.
#[derive(Clone, Copy, Debug, PartialEq, Eq, Structural)]
pub struct CheckSettings {
    /// Check generated footer freshness.
    pub render: Option<bool>,
    /// Check that each configured link relation has a matching structural entry.
    pub structural_inhabitance: Option<bool>,
}

impl Default for CheckSettings {
    fn default() -> (r: Self)
        ensures
            r == (CheckSettings { render: None, structural_inhabitance: None }),
    {
        CheckSettings { render: None, structural_inhabitance: None }
    }
}

/// An optional flag, enabled when absent.
pub open spec fn flag_enabled(f: Option<bool>) -> bool {
    match f {
        Some(b) => b,
        None => true,
    }
}

impl CheckSettings {
    /// Whether generated footer freshness checking is enabled.
    pub fn render_enabled(&self) -> (r: bool)
        ensures
            r == flag_enabled(self.render),
    {
        match self.render {
            Some(b) => b,
            None => true,
        }
    }

    /// Whether configured link relations must have matching structural entries.
    pub fn structural_inhabitance_enabled(&self) -> (r: bool)
        ensures
            r == flag_enabled(self.structural_inhabitance),
    {
        match self.structural_inhabitance {
            Some(b) => b,
            None => true,
        }
    }

    /// Whether any flag is written down.
    pub fn has_explicit_flags(&self) -> (r: bool)
        ensures
            r == (self.render is Some || self.structural_inhabitance is Some),
    {
        self.render.is_some() || self.structural_inhabitance.is_some()
    }
}

/// Generated content render settings: for each structural relation, the link directions
/// rendered in generated footers.
#[derive(Debug)]
pub struct RenderSettings {
    /// Rendered directions per relation, in configuration order.
    pub structural: Vec<(String, Vec<StructuralEdgeDirection>)>,
}

impl RenderSettings {
    /// Settings that render nothing.
    pub fn new() -> (r: Self)
        ensures
            r.structural@.len() == 0,
    {
        RenderSettings { structural: Vec::new() }
    }

    /// Whether no render policy is configured.
    pub fn is_empty(&self) -> (r: bool)
        ensures
            r == (self.structural@.len() == 0),
    {
        self.structural.len() == 0
    }
}

/// Optional tutorial output; the table's presence enables tutorial text for recoverable
/// command failures.
#[derive(Clone, Copy, Debug, PartialEq, Eq, Structural)]
pub struct TutorialSettings {
    /// Show tutorial text when frost commit is blocked by open tide workitems.
    pub frost_commit_tide: bool,
    /// Include first-snapshot bootstrap context in the frost commit tide tutorial.
    pub frost_bootstrap_tide: bool,
}

impl TutorialSettings {
    /// Every tutorial enabled.
    pub fn all() -> (r: Self)
        ensures
            r == (TutorialSettings { frost_commit_tide: true, frost_bootstrap_tide: true }),
    {
        TutorialSettings { frost_commit_tide: true, frost_bootstrap_tide: true }
    }
}

impl Default for TutorialSettings {
    fn default() -> (r: Self)
        ensures
            r == (TutorialSettings { frost_commit_tide: true, frost_bootstrap_tide: true }),
    {
        TutorialSettings::all()
    }
}

/// A path that is empty, absolute, or names a parent directory.
pub open spec fn escapes_root(p: Seq<char>) -> bool {
    p.len() == 0 || p[0] == '/' || has_parent_part(split_on(p, '/'))
}

/// Whether a path is empty, absolute, or names a parent directory.
pub fn path_escapes_root(p: &str) -> (r: bool)
    ensures
        r == escapes_root(p@),
{
    let chars = chars_of(p);
    if chars.len() == 0 || chars[0] == '/' {
        return true;
    }
    let parts = split_slice(chars.as_slice(), '/');
    let ghost ps = split_on(p@, '/');
    let mut i: usize = 0;
    while i < parts.len()
        invariant
            i <= parts@.len(),
            parts@.map_values(|q: Vec<char>| q@) == ps,
            ps == split_on(p@, '/'),
            forall|k: int| 0 <= k < i ==> #[trigger] ps[k] != crate::artifact::parent_dir(),
        decreases parts@.len() - i,
    {
        assert(parts@[i as int]@ == ps[i as int]);
        if parts[i].len() == 2 && parts[i][0] == '.' && parts[i][1] == '.' {
            assert(ps[i as int] =~= crate::artifact::parent_dir());
            return true;
        }
        assert(ps[i as int] != crate::artifact::parent_dir()) by {
            if ps[i as int] == crate::artifact::parent_dir() {
                assert(parts@[i as int]@[0] == '.');
            }
        }
        i = i + 1;
    }
    false
}

/// Configured lake settings: the lake path and lake-relative paths that are skipped.
#[derive(Debug)]
pub struct LakeSettings {
    /// Configured lake path.
    pub path: String,
    /// Lake-root-relative paths that are skipped.
    pub ignore: Vec<String>,
}

impl LakeSettings {
    /// Lake settings with a lake path and no ignored paths.
    pub fn new(path: &str) -> (r: Self)
        ensures
            r.path@ == path@,
            r.ignore@.len() == 0,
    {
        LakeSettings { path: owned(path), ignore: Vec::new() }
    }

    /// Check that each ignored path stays inside the lake root.
    pub fn validate(&self) -> (r: Result<(), ConfigError>)
        ensures
            r is Ok <==> forall|i: int|
                0 <= i < self.ignore@.len() ==> !escapes_root(#[trigger] self.ignore@[i]@),
            r matches Err(e) ==> (e matches ConfigError::LakeIgnorePath(p) && exists|i: int|
                0 <= i < self.ignore@.len() && self.ignore@[i]@ == p@ && escapes_root(p@)
                    && forall|j: int|
                    0 <= j < i ==> !escapes_root(#[trigger] self.ignore@[j]@)),
    {
        let mut i: usize = 0;
        while i < self.ignore.len()
            invariant
                i <= self.ignore@.len(),
                forall|j: int| 0 <= j < i ==> !escapes_root(#[trigger] self.ignore@[j]@),
            decreases self.ignore@.len() - i,
        {
            if path_escapes_root(self.ignore[i].as_str()) {
                return Err(ConfigError::LakeIgnorePath(owned(self.ignore[i].as_str())));
            }
            i = i + 1;
        }
        Ok(())
    }
}

/// Requested upstream Git ref selector.
#[derive(Clone, Copy, Debug, PartialEq, Eq)]
pub enum UpstreamRef<'a> {
    /// Branch name.
    Branch(&'a str),
    /// Tag name.
    Tag(&'a str),
    /// Commit-ish.
    Rev(&'a str),
}

/// The default project directory inside an upstream Git tree.
pub open spec fn default_project() -> Seq<char> {
    seq!['.']
}

/// A project path that equals `.` as a path: a current-directory component and nothing else.
pub open spec fn is_default_project(p: Seq<char>) -> bool {
    let ps = split_on(p, '/');
    &&& p.len() > 0
    &&& ps[0] == cur_dir()
    &&& forall|i: int| 1 <= i < ps.len() ==> (#[trigger] ps[i]).len() == 0 || ps[i] == cur_dir()
}

/// Whether a project path equals `.` as a path.
pub fn project_is_default(p: &str) -> (r: bool)
    ensures
        r == is_default_project(p@),
{
    let chars = chars_of(p);
    if chars.len() == 0 {
        return false;
    }
    let parts = split_slice(chars.as_slice(), '/');
    let ghost ps = split_on(p@, '/');
    proof {
        crate::text::lemma_split_on_nonempty(p@, '/');
    }
    assert(parts@[0]@ == ps[0]);
    if !(parts[0].len() == 1 && parts[0][0] == '.') {
        assert(ps[0] != cur_dir()) by {
            if ps[0] == cur_dir() {
                assert(parts@[0]@[0] == '.');
            }
        }
        return false;
    }
    assert(ps[0] =~= cur_dir());
    let mut i: usize = 1;
    while i < parts.len()
        invariant
            1 <= i <= parts@.len(),
            parts@.map_values(|q: Vec<char>| q@) == ps,
            ps == split_on(p@, '/'),
            forall|k: int| 1 <= k < i ==> (#[trigger] ps[k]).len() == 0 || ps[k] == cur_dir(),
        decreases parts@.len() - i,
    {
        assert(parts@[i as int]@ == ps[i as int]);
        let is_dot = parts[i].len() == 1 && parts[i][0] == '.';
        if is_dot {
            assert(ps[i as int] =~= cur_dir());
        }
        if parts[i].len() != 0 && !is_dot {
            assert(ps[i as int] != cur_dir()) by {
                if ps[i as int] == cur_dir() {
                    assert(parts@[i as int]@[0] == '.');
                }
            }
            return false;
        }
        i = i + 1;
    }
    true
}

/// Configured upstream Git lake source.
#[derive(Debug)]
pub struct UpstreamSettings {
    /// Git URI or local repository source accepted by Git.
    pub git: String,
    /// Branch name to resolve.
    pub branch: Option<String>,
    /// Tag name to resolve.
    pub tag: Option<String>,
    /// Commit-ish to resolve.
    pub rev: Option<String>,
    /// Directory inside the Git tree that holds `Sirno.toml`.
    pub project: String,
}

/// View of an optional string.
pub open spec fn opt_text(o: Option<String>) -> Option<Seq<char>> {
    match o {
        Some(s) => Some(s@),
        None => None,
    }
}

/// Number of ref selectors that are set.
pub open spec fn selector_count(u: &UpstreamSettings) -> int {
    (if u.branch is Some { 1int } else { 0int }) + (if u.tag is Some { 1int } else { 0int }) + (
    if u.rev is Some { 1int } else { 0int })
}

/// A selector that is set and blank.
pub open spec fn blank_selector(o: Option<String>) -> bool {
    match o {
        Some(s) => trim(s@).len() == 0,
        None => false,
    }
}

/// The outcome of validating an upstream declaration.
pub open spec fn upstream_problem(u: &UpstreamSettings) -> Option<UpstreamProblem> {
    if trim(u.git@).len() == 0 {
        Some(UpstreamProblem::GitSource)
    } else if selector_count(u) != 1 || blank_selector(u.branch) || blank_selector(u.tag)
        || blank_selector(u.rev) {
        Some(UpstreamProblem::RefSelector)
    } else if escapes_root(u.project@) {
        Some(UpstreamProblem::ProjectPath)
    } else {
        None
    }
}

/// What is wrong with an upstream declaration.
#[derive(Clone, Copy, Debug, PartialEq, Eq, Structural)]
pub enum UpstreamProblem {
    GitSource,
    RefSelector,
    ProjectPath,
}

/// Whether a string is blank.
fn is_blank(s: &str) -> (r: bool)
    ensures
        r == (trim(s@).len() == 0),
{
    let chars = chars_of(s);
    trim_slice(chars.as_slice()).len() == 0
}

/// Whether an optional selector is set and blank.
fn selector_is_blank(o: &Option<String>) -> (r: bool)
    ensures
        r == blank_selector(*o),
{
    match o {
        Some(s) => is_blank(s.as_str()),
        None => false,
    }
}

impl UpstreamSettings {
    /// Branch-pinned upstream settings.
    pub fn branch(git: &str, branch: &str) -> (r: Self)
        ensures
            r.git@ == git@,
            opt_text(r.branch) == Some(branch@),
            r.tag is None,
            r.rev is None,
            r.project@ == default_project(),
    {
        UpstreamSettings {
            git: owned(git),
            branch: Some(owned(branch)),
            tag: None,
            rev: None,
            project: default_project_path(),
        }
    }

    /// Tag-pinned upstream settings.
    pub fn tag(git: &str, tag: &str) -> (r: Self)
        ensures
            r.git@ == git@,
            r.branch is None,
            opt_text(r.tag) == Some(tag@),
            r.rev is None,
            r.project@ == default_project(),
    {
        UpstreamSettings {
            git: owned(git),
            branch: None,
            tag: Some(owned(tag)),
            rev: None,
            project: default_project_path(),
        }
    }

    /// Commit-pinned upstream settings.
    pub fn rev(git: &str, rev: &str) -> (r: Self)
        ensures
            r.git@ == git@,
            r.branch is None,
            r.tag is None,
            opt_text(r.rev) == Some(rev@),
            r.project@ == default_project(),
    {
        UpstreamSettings {
            git: owned(git),
            branch: None,
            tag: None,
            rev: Some(owned(rev)),
            project: default_project_path(),
        }
    }

    /// The requested ref selector: the branch, else the tag, else the revision.
    pub fn selector(&self) -> (r: UpstreamRef<'_>)
        requires
            selector_count(self) >= 1,
        ensures
            match r {
                UpstreamRef::Branch(b) => opt_text(self.branch) == Some(b@),
                UpstreamRef::Tag(t) => self.branch is None && opt_text(self.tag) == Some(t@),
                UpstreamRef::Rev(v) => self.branch is None && self.tag is None && opt_text(self.rev)
                    == Some(v@),
            },
    {
        match &self.branch {
            Some(b) => UpstreamRef::Branch(b.as_str()),
            None => match &self.tag {
                Some(t) => UpstreamRef::Tag(t.as_str()),
                None => match &self.rev {
                    Some(v) => UpstreamRef::Rev(v.as_str()),
                    None => UpstreamRef::Rev(""),
                },
            },
        }
    }

    /// Check the declaration: a Git source, exactly one non-blank selector, and a project
    /// path inside the Git tree.
    pub fn validate(&self, domain: &EntryAtom) -> (r: Result<(), ConfigError>)
        ensures
            upstream_problem(self) is None <==> r is Ok,
            upstream_problem(self) == Some(UpstreamProblem::GitSource) ==> (r matches Err(
                ConfigError::UpstreamGitSource(d),
            ) && d@ == domain@),
            upstream_problem(self) == Some(UpstreamProblem::RefSelector) ==> (r matches Err(
                ConfigError::UpstreamRefSelector(d),
            ) && d@ == domain@),
            upstream_problem(self) == Some(UpstreamProblem::ProjectPath) ==> (r matches Err(
                ConfigError::UpstreamProjectPath { domain: d, path: p },
            ) && d@ == domain@ && p@ == self.project@),
    {
        if is_blank(self.git.as_str()) {
            return Err(ConfigError::UpstreamGitSource(domain.clone()));
        }
        let count: usize = (if self.branch.is_some() { 1 } else { 0 }) + (if self.tag.is_some() {
            1
        } else {
            0
        }) + (if self.rev.is_some() { 1 } else { 0 });
        if count != 1 || selector_is_blank(&self.branch) || selector_is_blank(&self.tag)
            || selector_is_blank(&self.rev) {
            return Err(ConfigError::UpstreamRefSelector(domain.clone()));
        }
        if path_escapes_root(self.project.as_str()) {
            return Err(
                ConfigError::UpstreamProjectPath {
                    domain: domain.clone(),
                    path: owned(self.project.as_str()),
                },
            );
        }
        Ok(())
    }
}

/// The default project path `.`.
fn default_project_path() -> (r: String)
    ensures
        r@ == default_project(),
{
    let mut s = String::new();
    push_char(&mut s, '.');
    assert(s@ =~= default_project());
    s
}

/// One repository member scanned for witness blocks.
///
/// Invariant: the pattern is a non-empty config-relative path or glob, never absolute and
/// never escaping to a parent directory.
#[derive(Debug)]
pub struct RepoMember {
    pattern: String,
}

impl View for RepoMember {
    type V = Seq<char>;

    closed spec fn view(&self) -> Seq<char> {
        self.pattern@
    }
}

impl RepoMember {
    #[verifier::type_invariant]
    closed spec fn well_formed(self) -> bool {
        !escapes_root(self.pattern@)
    }

    /// One repo-member pattern, checked.
    pub fn new(pattern: &str) -> (r: Result<Self, ConfigError>)
        ensures
            r is Ok <==> !escapes_root(pattern@),
            r matches Ok(m) ==> m@ == pattern@,
            r matches Err(e) ==> (e matches ConfigError::RepoMemberPath(p) && p@ == pattern@),
    {
        if path_escapes_root(pattern) {
            return Err(ConfigError::RepoMemberPath(owned(pattern)));
        }
        Ok(RepoMember { pattern: owned(pattern) })
    }

    /// The member pattern as written in the config.
    pub fn as_str(&self) -> (r: &str)
        ensures
            r@ == self@,
            !escapes_root(self@),
    {
        proof {
            use_type_invariant(self);
        }
        self.pattern.as_str()
    }
}

/// Configured repository members that can witness entries.
#[derive(Debug)]
pub struct RepoSettings {
    /// Config-relative paths or globs.
    pub members: Vec<RepoMember>,
}

/// Configured witness delimiter pair; each regex captures the entry address as its first
/// group.
#[derive(Debug)]
pub struct WitnessDelimiterSettings {
    /// Regex that matches an opening witness delimiter.
    pub begin: String,
    /// Regex that matches a closing witness delimiter.
    pub end: String,
}

/// Configured witness delimiter syntax; an empty list disables repository witness lookup.
#[derive(Debug)]
pub struct WitnessSettings {
    /// Configured witness delimiter pairs.
    pub delimiters: Vec<WitnessDelimiterSettings>,
}

/// The regex engine accepts `source`.
pub uninterp spec fn regex_compiles(source: Seq<char>) -> bool;

/// Number of capture slots of the compiled `source`, the whole match included.
pub uninterp spec fn regex_capture_slots(source: Seq<char>) -> nat;

/// The compiled `source` matches the empty text.
pub uninterp spec fn regex_matches_empty(source: Seq<char>) -> bool;

/// Compiles `source` with `regex::Regex::new`; when it compiles, reports
/// `Regex::captures_len` and `Regex::is_match("")` of the result. The contract ties each
/// outcome to the source text alone and says nothing more of it.
#[verifier::external_body]
fn regex_probe(source: &str) -> (r: Option<(usize, bool)>)
    ensures
        r is Some <==> regex_compiles(source@),
        r matches Some(p) ==> p.0 == regex_capture_slots(source@) && p.1 == regex_matches_empty(
            source@,
        ),
{
    match regex::Regex::new(source) {
        Ok(re) => Some((re.captures_len(), re.is_match(""))),
        Err(_) => None,
    }
}

/// What is wrong with a witness delimiter regex.
#[derive(Clone, Copy, Debug, PartialEq, Eq, Structural)]
pub enum RegexProblem {
    Empty,
    Syntax,
    Capture,
    EmptyMatch,
}

/// The outcome of checking one witness delimiter regex.
pub open spec fn regex_problem(source: Seq<char>) -> Option<RegexProblem> {
    if trim(source).len() == 0 {
        Some(RegexProblem::Empty)
    } else if !regex_compiles(source) {
        Some(RegexProblem::Syntax)
    } else if regex_capture_slots(source) < 2 {
        Some(RegexProblem::Capture)
    } else if regex_matches_empty(source) {
        Some(RegexProblem::EmptyMatch)
    } else {
        None
    }
}

/// The error for a regex problem at one config field and delimiter index.
pub open spec fn regex_error(p: RegexProblem, field: Seq<char>, index: usize, e: ConfigError) -> bool {
    match p {
        RegexProblem::Empty => e matches ConfigError::WitnessRegex { field: f, index: i } && f@
            == field && i == index,
        RegexProblem::Syntax => e matches ConfigError::WitnessRegexSyntax { field: f, index: i }
            && f@ == field && i == index,
        RegexProblem::Capture => e matches ConfigError::WitnessRegexCapture { field: f, index: i }
            && f@ == field && i == index,
        RegexProblem::EmptyMatch => e matches ConfigError::WitnessRegexEmptyMatch {
            field: f,
            index: i,
        } && f@ == field && i == index,
    }
}

/// Config field of opening delimiters.
pub open spec fn begin_field() -> Seq<char> {
    "witness.delimiters.begin"@
}

/// Config field of closing delimiters.
pub open spec fn end_field() -> Seq<char> {
    "witness.delimiters.end"@
}

impl WitnessDelimiterSettings {
    /// One delimiter pair from regex strings.
    pub fn new(begin: &str, end: &str) -> (r: Self)
        ensures
            r.begin@ == begin@,
            r.end@ == end@,
    {
        WitnessDelimiterSettings { begin: owned(begin), end: owned(end) }
    }

    /// Check one delimiter regex: non-blank, compiling, with a capture group, and not
    /// matching empty text.
    pub fn validate_regex(field: &'static str, index: usize, source: &str) -> (r: Result<
        (),
        ConfigError,
    >)
        ensures
            r is Ok <==> regex_problem(source@) is None,
            r matches Err(e) ==> regex_error(regex_problem(source@)->0, field@, index, e),
    {
        if is_blank(source) {
            return Err(ConfigError::WitnessRegex { field, index });
        }
        match regex_probe(source) {
            None => Err(ConfigError::WitnessRegexSyntax { field, index }),
            Some((slots, empty)) => {
                if slots < 2 {
                    Err(ConfigError::WitnessRegexCapture { field, index })
                } else if empty {
                    Err(ConfigError::WitnessRegexEmptyMatch { field, index })
                } else {
                    Ok(())
                }
            },
        }
    }

    /// Check both regexes of the pair at `index`.
    pub fn validate(&self, index: usize) -> (r: Result<(), ConfigError>)
        ensures
            r is Ok <==> regex_problem(self.begin@) is None && regex_problem(self.end@) is None,
            r matches Err(e) ==> if regex_problem(self.begin@) is Some {
                regex_error(regex_problem(self.begin@)->0, begin_field(), index, e)
            } else {
                regex_error(regex_problem(self.end@)->0, end_field(), index, e)
            },
    {
        match Self::validate_regex("witness.delimiters.begin", index, self.begin.as_str()) {
            Err(e) => { return Err(e); },
            Ok(()) => {},
        }
        Self::validate_regex("witness.delimiters.end", index, self.end.as_str())
    }
}

impl WitnessSettings {
    /// The standard syntax written by generated configs: line-comment and Markdown pairs.
    pub fn standard() -> (r: Self)
        ensures
            r.delimiters@.len() == 2,
            r.delimiters@[0].begin@ == STANDARD_LINE_WITNESS_BEGIN_REGEX@,
            r.delimiters@[0].end@ == STANDARD_LINE_WITNESS_END_REGEX@,
            r.delimiters@[1].begin@ == STANDARD_MARKDOWN_WITNESS_BEGIN_REGEX@,
            r.delimiters@[1].end@ == STANDARD_MARKDOWN_WITNESS_END_REGEX@,
    {
        let mut delimiters: Vec<WitnessDelimiterSettings> = Vec::new();
        delimiters.push(
            WitnessDelimiterSettings::new(
                STANDARD_LINE_WITNESS_BEGIN_REGEX,
                STANDARD_LINE_WITNESS_END_REGEX,
            ),
        );
        delimiters.push(
            WitnessDelimiterSettings::new(
                STANDARD_MARKDOWN_WITNESS_BEGIN_REGEX,
                STANDARD_MARKDOWN_WITNESS_END_REGEX,
            ),
        );
        WitnessSettings { delimiters }
    }

    /// Check every delimiter pair, in order.
    pub fn validate(&self) -> (r: Result<(), ConfigError>)
        ensures
            r is Ok <==> forall|i: int|
                0 <= i < self.delimiters@.len() ==> regex_problem(
                    (#[trigger] self.delimiters@[i]).begin@,
                ) is None && regex_problem(self.delimiters@[i].end@) is None,
    {
        let mut i: usize = 0;
        while i < self.delimiters.len()
            invariant
                i <= self.delimiters@.len(),
                forall|j: int|
                    0 <= j < i ==> regex_problem((#[trigger] self.delimiters@[j]).begin@) is None
                        && regex_problem(self.delimiters@[j].end@) is None,
            decreases self.delimiters@.len() - i,
        {
            match self.delimiters[i].validate(i) {
                Err(e) => { return Err(e); },
                Ok(()) => {},
            }
            i = i + 1;
        }
        Ok(())
    }
}

/// Error raised by config checks.
#[derive(Debug)]
pub enum ConfigError {
    /// A lake ignore path is not relative to the lake root.
    LakeIgnorePath(String),
    /// A repo member path or glob is not relative to the config directory.
    RepoMemberPath(String),
    /// A link relation name cannot be used as a metadata key.
    StructuralFieldName(String),
    /// A link relation name is reserved for managed metadata.
    ReservedStructuralField(String),
    /// A rendered structural relation is not configured.
    RenderStructuralField(String),
    /// A rendered structural direction is listed more than once.
    DuplicateRenderStructuralDirection {
        /// Link relation name.
        field: String,
        /// Repeated direction label.
        direction: String,
    },
    /// A witness delimiter regex is empty.
    WitnessRegex {
        /// Config field that held the regex.
        field: &'static str,
        /// Zero-based delimiter pair index.
        index: usize,
    },
    /// A witness delimiter regex does not compile.
    WitnessRegexSyntax {
        /// Config field that held the regex.
        field: &'static str,
        /// Zero-based delimiter pair index.
        index: usize,
    },
    /// A witness delimiter regex does not capture an entry address.
    WitnessRegexCapture {
        /// Config field that held the regex.
        field: &'static str,
        /// Zero-based delimiter pair index.
        index: usize,
    },
    /// A witness delimiter regex can match empty text.
    WitnessRegexEmptyMatch {
        /// Config field that held the regex.
        field: &'static str,
        /// Zero-based delimiter pair index.
        index: usize,
    },
    /// An upstream Git source is empty.
    UpstreamGitSource(EntryAtom),
    /// An upstream must have exactly one ref selector.
    UpstreamRefSelector(EntryAtom),
    /// An upstream project path is not a normal Git-tree-relative path.
    UpstreamProjectPath {
        /// Glacier domain.
        domain: EntryAtom,
        /// Invalid project path.
        path: String,
    },
}


/// Human-readable description of a config error.
pub open spec fn config_error_text(e: ConfigError) -> Seq<char> {
    match e {
        ConfigError::LakeIgnorePath(p) => "lake.ignore path must be relative to the lake root: "@ + p@,
        ConfigError::RepoMemberPath(p) => "repo.members path must be relative to the config directory: "@ + p@,
        ConfigError::StructuralFieldName(f) => "link relation name must be a non-empty single-line metadata key: "@ + f@,
        ConfigError::ReservedStructuralField(f) => "link relation name is reserved for Sirno metadata: "@ + f@,
        ConfigError::RenderStructuralField(f) => "render.structural `"@ + f@ + "` must name a configured link relation"@,
        ConfigError::DuplicateRenderStructuralDirection { field, direction } => "render.structural `"@ + field@
            + "` repeats direction `"@ + direction@ + "`"@,
        ConfigError::WitnessRegex { field, index } => field@ + " at index "@ + crate::text::decimal(index as nat) + " must not be empty"@,
        ConfigError::WitnessRegexSyntax { field, index } => field@ + " at index "@ + crate::text::decimal(index as nat) + " contains an invalid regex"@,
        ConfigError::WitnessRegexCapture { field, index } => field@ + " at index "@ + crate::text::decimal(index as nat) + " must capture the entry address"@,
        ConfigError::WitnessRegexEmptyMatch { field, index } => field@ + " at index "@ + crate::text::decimal(index as nat) + " must not match empty text"@,
        ConfigError::UpstreamGitSource(d) => "upstream `"@ + d@ + "` git source must not be empty"@,
        ConfigError::UpstreamRefSelector(d) => "upstream `"@ + d@ + "` must configure exactly one of branch, tag, or rev"@,
        ConfigError::UpstreamProjectPath { domain, path } => "upstream `"@ + domain@ + "` project path must be relative within the Git tree: "@ + path@,
    }
}

impl ConfigError {
    /// Human-readable description.
    pub fn message(&self) -> (r: String)
        ensures
            r@ == config_error_text(*self),
    {
        let mut out = String::new();
        match self {
            ConfigError::LakeIgnorePath(p) => {
                push_str(&mut out, "lake.ignore path must be relative to the lake root: ");
                push_str(&mut out, p.as_str());
            },
            ConfigError::RepoMemberPath(p) => {
                push_str(&mut out, "repo.members path must be relative to the config directory: ");
                push_str(&mut out, p.as_str());
            },
            ConfigError::StructuralFieldName(f) => {
                push_str(&mut out, "link relation name must be a non-empty single-line metadata key: ");
                push_str(&mut out, f.as_str());
            },
            ConfigError::ReservedStructuralField(f) => {
                push_str(&mut out, "link relation name is reserved for Sirno metadata: ");
                push_str(&mut out, f.as_str());
            },
            ConfigError::RenderStructuralField(f) => {
                push_str(&mut out, "render.structural `");
                push_str(&mut out, f.as_str());
                push_str(&mut out, "` must name a configured link relation");
            },
            ConfigError::DuplicateRenderStructuralDirection { field, direction } => {
                push_str(&mut out, "render.structural `");
                push_str(&mut out, field.as_str());
                push_str(&mut out, "` repeats direction `");
                push_str(&mut out, direction.as_str());
                push_str(&mut out, "`");
            },
            ConfigError::WitnessRegex { field, index } => {
                push_str(&mut out, field);
                push_str(&mut out, " at index ");
                crate::text::push_decimal(&mut out, *index);
                push_str(&mut out, " must not be empty");
            },
            ConfigError::WitnessRegexSyntax { field, index } => {
                push_str(&mut out, field);
                push_str(&mut out, " at index ");
                crate::text::push_decimal(&mut out, *index);
                push_str(&mut out, " contains an invalid regex");
            },
            ConfigError::WitnessRegexCapture { field, index } => {
                push_str(&mut out, field);
                push_str(&mut out, " at index ");
                crate::text::push_decimal(&mut out, *index);
                push_str(&mut out, " must capture the entry address");
            },
            ConfigError::WitnessRegexEmptyMatch { field, index } => {
                push_str(&mut out, field);
                push_str(&mut out, " at index ");
                crate::text::push_decimal(&mut out, *index);
                push_str(&mut out, " must not match empty text");
            },
            ConfigError::UpstreamGitSource(d) => {
                push_str(&mut out, "upstream `");
                push_str(&mut out, d.as_str());
                push_str(&mut out, "` git source must not be empty");
            },
            ConfigError::UpstreamRefSelector(d) => {
                push_str(&mut out, "upstream `");
                push_str(&mut out, d.as_str());
                push_str(&mut out, "` must configure exactly one of branch, tag, or rev");
            },
            ConfigError::UpstreamProjectPath { domain, path } => {
                push_str(&mut out, "upstream `");
                push_str(&mut out, domain.as_str());
                push_str(&mut out, "` project path must be relative within the Git tree: ");
                push_str(&mut out, path.as_str());
            },
        }
        out
    }
}

/// A TOML value as the config renderer writes it.
pub enum TomlValueView {
    /// A string.
    Text(Seq<char>),
    /// A boolean.
    Flag(bool),
    /// An array of strings.
    Texts(Seq<Seq<char>>),
}

/// Text that `toml` renders for a value.
pub uninterp spec fn toml_value_text(v: TomlValueView) -> Seq<char>;

/// Renders a string with the `Display` of `toml::Value::String`; the result is the named
/// rendering of that string and nothing more is claimed of it.
#[verifier::external_body]
fn toml_text(s: &str) -> (r: String)
    ensures
        r@ == toml_value_text(TomlValueView::Text(s@)),
{
    toml::Value::String(s.to_owned()).to_string()
}

/// Renders a boolean with the `Display` of `toml::Value::Boolean`, which writes the boolean
/// as `true` or `false`; the result is also the named rendering of that boolean.
#[verifier::external_body]
fn toml_flag(b: bool) -> (r: String)
    ensures
        r@ == toml_value_text(TomlValueView::Flag(b)),
        r@ == if b {
            "true"@
        } else {
            "false"@
        },
{
    toml::Value::Boolean(b).to_string()
}

/// Renders an array of strings with the `Display` of `toml::Value::Array`; the result is
/// the named rendering of those strings and nothing more is claimed of it.
#[verifier::external_body]
fn toml_texts(items: &Vec<String>) -> (r: String)
    ensures
        r@ == toml_value_text(TomlValueView::Texts(crate::text::strings_view(items@))),
{
    toml::Value::Array(items.iter().map(|s| toml::Value::String(s.clone())).collect()).to_string()
}

pub const LAKE_PATH_COMMENT: &'static str = "Sirno Lake path, resolved relative to this config file.";

pub const LAKE_IGNORE_COMMENT: &'static str = "Paths in lake that Sirno skips while reading, checking, querying, and rendering footers.";

pub const UPSTREAM_COMMENT_LINE: &'static str = "# Git-backed upstream lake crystallized into a glacier under this entry domain.\n";

pub const REPO_MEMBERS_COMMENT: &'static str = "Repository files, directories, or globs scanned for witness blocks.";

pub const WITNESS_COMMENT_LINE: &'static str = "# Witness delimiter regex pairs; each first capture group is the entry address.\n";

pub const CAPTURE_COMMENT_PREFIX: &'static str = "# Canonical entry-address capture: ";

pub const CHECK_RENDER_COMMENT: &'static str = "Require generated footers to match current metadata during checks.";

pub const CHECK_INHABITANCE_COMMENT: &'static str = "Require each configured link relation to have a matching structural relation entry during checks.";

pub const TUTORIAL_PRESENCE_LINE: &'static str = "# Presence of this table enables tutorial text for recoverable command failures.\n";

pub const TUTORIAL_REMOVE_LINE: &'static str = "# Remove this table to keep CLI errors terse.\n";

pub const TUTORIAL_COMMIT_COMMENT: &'static str = "Show tutorial text when frost commit is blocked by open tide workitems.";

pub const TUTORIAL_BOOTSTRAP_COMMENT: &'static str = "Include first-snapshot bootstrap context in the frost commit tide tutorial.";

pub const STRUCTURAL_COMMENT_LINES: &'static str = "# Structural link relations.\n# Add one [structural.FIELD] subtable for each metadata relation Sirno treats as structure.\n# FIELD must be a non-empty single-line metadata key with no comma.\n# FIELD cannot be name, desc, meta, or frozen.\n# entry names the lake entry that documents the relation.\n# Entry metadata values for FIELD must be lists of entry addresses; targets must exist by review.\n# Tide policy lives in structural relation entry meta.ripple.lake and meta.ripple.frost direction lists.\n";

pub const RENDER_COMMENT_LINES: &'static str = "# Generated-footer structural link render policy.\n# Each key names a configured structural relation.\n# Values are direction lists: to, from, and clique.\n";

/// Project configuration.
///
/// Relative paths are resolved against the directory that holds the config file.
#[derive(Debug)]
pub struct SirnoConfig {
    /// Configured lake settings.
    pub lake: LakeSettings,
    /// Configured upstream lakes, keyed by glacier domain, in configuration order.
    pub upstreams: Vec<(EntryAtom, UpstreamSettings)>,
    /// Configured repository members.
    pub repo: Option<RepoSettings>,
    /// Configured repository witness delimiter syntax.
    pub witness: WitnessSettings,
    /// Structural check settings.
    pub check: CheckSettings,
    /// Optional tutorial output settings.
    pub tutorial: Option<TutorialSettings>,
    /// Structural link relations.
    pub structural: StructuralSettings,
    /// Generated content render settings.
    pub render: RenderSettings,
}

/// A table header line.
pub open spec fn table_line(name: Seq<char>) -> Seq<char> {
    "["@ + name + "]\n"@
}

/// An array-of-tables header line.
pub open spec fn array_table_line(name: Seq<char>) -> Seq<char> {
    "[["@ + name + "]]\n"@
}

/// A `key = value` line.
pub open spec fn bare_field(name: Seq<char>, v: TomlValueView) -> Seq<char> {
    name + " = "@ + toml_value_text(v) + "\n"@
}

/// A comment line followed by a `key = value` line.
pub open spec fn commented_field(name: Seq<char>, v: TomlValueView, comment: Seq<char>) -> Seq<
    char,
> {
    "# "@ + comment + "\n"@ + bare_field(name, v)
}

/// A `key = value` line when the value is present.
pub open spec fn optional_field(name: Seq<char>, v: Option<String>) -> Seq<char> {
    match v {
        Some(s) => bare_field(name, TomlValueView::Text(s@)),
        None => Seq::empty(),
    }
}

/// The `[lake]` table.
pub open spec fn lake_section(l: &LakeSettings) -> Seq<char> {
    table_line("lake"@) + commented_field(
        "path"@,
        TomlValueView::Text(l.path@),
        LAKE_PATH_COMMENT@,
    ) + if l.ignore@.len() > 0 {
        commented_field(
            "ignore"@,
            TomlValueView::Texts(crate::text::strings_view(l.ignore@)),
            LAKE_IGNORE_COMMENT@,
        )
    } else {
        Seq::empty()
    }
}

/// One `[upstreams.DOMAIN]` table, the one at position `i`.
pub open spec fn upstream_block(i: int, domain: Seq<char>, u: &UpstreamSettings) -> Seq<char> {
    (if i > 0 {
        "\n"@
    } else {
        Seq::empty()
    }) + table_line("upstreams."@ + domain) + (if i == 0 {
        UPSTREAM_COMMENT_LINE@
    } else {
        Seq::empty()
    }) + bare_field("git"@, TomlValueView::Text(u.git@)) + optional_field("branch"@, u.branch)
        + optional_field("tag"@, u.tag) + optional_field("rev"@, u.rev) + if is_default_project(
        u.project@,
    ) {
        Seq::empty()
    } else {
        bare_field("project"@, TomlValueView::Text(u.project@))
    }
}

/// The upstream tables, in order.
pub open spec fn upstream_blocks(ups: Seq<(EntryAtom, UpstreamSettings)>) -> Seq<char>
    decreases ups.len(),
{
    if ups.len() == 0 {
        Seq::empty()
    } else {
        upstream_blocks(ups.drop_last()) + upstream_block(
            ups.len() - 1,
            ups.last().0@,
            &ups.last().1,
        )
    }
}

/// Views of repo members.
pub open spec fn members_view(ms: Seq<RepoMember>) -> Seq<Seq<char>> {
    ms.map_values(|m: RepoMember| m@)
}

/// One `[[witness.delimiters]]` table, the one at position `i`.
pub open spec fn delimiter_block(i: int, d: &WitnessDelimiterSettings) -> Seq<char> {
    (if i > 0 {
        "\n"@
    } else {
        Seq::empty()
    }) + array_table_line("witness.delimiters"@) + bare_field(
        "begin"@,
        TomlValueView::Text(d.begin@),
    ) + bare_field("end"@, TomlValueView::Text(d.end@))
}

/// The delimiter tables, in order.
pub open spec fn delimiter_blocks(ds: Seq<WitnessDelimiterSettings>) -> Seq<char>
    decreases ds.len(),
{
    if ds.len() == 0 {
        Seq::empty()
    } else {
        delimiter_blocks(ds.drop_last()) + delimiter_block(ds.len() - 1, &ds.last())
    }
}

/// The `[witness]` table.
pub open spec fn witness_section(w: &WitnessSettings) -> Seq<char> {
    table_line("witness"@) + WITNESS_COMMENT_LINE@ + CAPTURE_COMMENT_PREFIX@
        + WITNESS_ENTRY_ADDRESS_CAPTURE_REGEX@ + "\n"@ + delimiter_blocks(w.delimiters@)
}

/// The `[check]` table, when any flag is written down.
pub open spec fn check_section(c: CheckSettings) -> Seq<char> {
    if c.render is Some || c.structural_inhabitance is Some {
        "\n"@ + table_line("check"@) + (match c.render {
            Some(b) => commented_field("render"@, TomlValueView::Flag(b), CHECK_RENDER_COMMENT@),
            None => Seq::empty(),
        }) + match c.structural_inhabitance {
            Some(b) => commented_field(
                "structural-inhabitance"@,
                TomlValueView::Flag(b),
                CHECK_INHABITANCE_COMMENT@,
            ),
            None => Seq::empty(),
        }
    } else {
        Seq::empty()
    }
}

/// The `[tutorial]` table, when tutorials are configured.
pub open spec fn tutorial_section(t: Option<TutorialSettings>) -> Seq<char> {
    match t {
        Some(t) => "\n"@ + table_line("tutorial"@) + TUTORIAL_PRESENCE_LINE@ + TUTORIAL_REMOVE_LINE@
            + commented_field(
            "frost_commit_tide"@,
            TomlValueView::Flag(t.frost_commit_tide),
            TUTORIAL_COMMIT_COMMENT@,
        ) + commented_field(
            "frost_bootstrap_tide"@,
            TomlValueView::Flag(t.frost_bootstrap_tide),
            TUTORIAL_BOOTSTRAP_COMMENT@,
        ),
        None => Seq::empty(),
    }
}

/// One `[structural.FIELD]` table.
pub open spec fn relation_block(r: (Seq<char>, Option<Seq<char>>)) -> Seq<char> {
    "\n"@ + table_line("structural."@ + r.0) + match r.1 {
        Some(e) => bare_field("entry"@, TomlValueView::Text(e)),
        None => Seq::empty(),
    }
}

/// The relation tables, in order.
pub open spec fn relation_blocks(rs: Seq<(Seq<char>, Option<Seq<char>>)>) -> Seq<char>
    decreases rs.len(),
{
    if rs.len() == 0 {
        Seq::empty()
    } else {
        relation_blocks(rs.drop_last()) + relation_block(rs.last())
    }
}

/// The `[structural]` table and its relation subtables.
pub open spec fn structural_section(rs: Seq<(Seq<char>, Option<Seq<char>>)>) -> Seq<char> {
    "\n"@ + table_line("structural"@) + (if rs.len() > 0 {
        STRUCTURAL_COMMENT_LINES@
    } else {
        Seq::empty()
    }) + relation_blocks(rs)
}

/// Labels of directions.
pub open spec fn direction_labels(ds: Seq<StructuralEdgeDirection>) -> Seq<Seq<char>> {
    ds.map_values(|d: StructuralEdgeDirection| d.spec_label())
}

/// The render lines, in order.
pub open spec fn render_fields(fs: Seq<(String, Vec<StructuralEdgeDirection>)>) -> Seq<char>
    decreases fs.len(),
{
    if fs.len() == 0 {
        Seq::empty()
    } else {
        render_fields(fs.drop_last()) + bare_field(
            fs.last().0@,
            TomlValueView::Texts(direction_labels(fs.last().1@)),
        )
    }
}

/// The `[render.structural]` table, when any render policy is configured.
pub open spec fn render_section(r: &RenderSettings) -> Seq<char> {
    if r.structural@.len() > 0 {
        "\n"@ + table_line("render.structural"@) + RENDER_COMMENT_LINES@ + render_fields(
            r.structural@,
        )
    } else {
        Seq::empty()
    }
}

/// The upstream tables, when any upstream is configured.
pub open spec fn upstreams_part(c: &SirnoConfig) -> Seq<char> {
    if c.upstreams@.len() > 0 {
        "\n"@ + upstream_blocks(c.upstreams@)
    } else {
        Seq::empty()
    }
}

/// The `[repo]` table, when repository members are configured.
pub open spec fn repo_part(c: &SirnoConfig) -> Seq<char> {
    match &c.repo {
        Some(r) => "\n"@ + table_line("repo"@) + commented_field(
            "members"@,
            TomlValueView::Texts(members_view(r.members@)),
            REPO_MEMBERS_COMMENT@,
        ),
        None => Seq::empty(),
    }
}

/// The canonical commented TOML text of a config.
pub open spec fn config_text(c: &SirnoConfig) -> Seq<char> {
    lake_section(&c.lake) + upstreams_part(c) + repo_part(c) + "\n"@ + witness_section(&c.witness)
        + check_section(c.check) + tutorial_section(c.tutorial) + structural_section(
        c.structural@,
    ) + render_section(&c.render)
}

proof fn lemma_assoc(a: Seq<char>, b: Seq<char>, c: Seq<char>)
    ensures
        a + (b + c) == (a + b) + c,
{
    assert(a + (b + c) =~= (a + b) + c);
}

/// Append a table header line.
fn push_table(out: &mut String, name: &str)
    ensures
        final(out)@ == old(out)@ + table_line(name@),
{
    push_str(out, "[");
    push_str(out, name);
    push_str(out, "]\n");
    assert(out@ =~= old(out)@ + table_line(name@));
}

/// Append a `key = value` line.
fn push_bare(out: &mut String, name: &str, value: &str, ghost_value: Ghost<TomlValueView>)
    requires
        value@ == toml_value_text(ghost_value@),
    ensures
        final(out)@ == old(out)@ + bare_field(name@, ghost_value@),
{
    push_str(out, name);
    push_str(out, " = ");
    push_str(out, value);
    push_str(out, "\n");
    assert(out@ =~= old(out)@ + bare_field(name@, ghost_value@));
}

/// Append a comment line and a `key = value` line.
fn push_field(
    out: &mut String,
    name: &str,
    value: &str,
    ghost_value: Ghost<TomlValueView>,
    comment: &str,
)
    requires
        value@ == toml_value_text(ghost_value@),
    ensures
        final(out)@ == old(out)@ + commented_field(name@, ghost_value@, comment@),
{
    push_str(out, "# ");
    push_str(out, comment);
    push_str(out, "\n");
    push_bare(out, name, value, ghost_value);
    assert(out@ =~= old(out)@ + commented_field(name@, ghost_value@, comment@));
}

/// Texts of the given strings, copied.
fn copy_strings(v: &Vec<String>) -> (r: Vec<String>)
    ensures
        crate::text::strings_view(r@) == crate::text::strings_view(v@),
{
    let mut r: Vec<String> = Vec::new();
    let mut i: usize = 0;
    while i < v.len()
        invariant
            i <= v@.len(),
            crate::text::strings_view(r@) == crate::text::strings_view(v@).take(i as int),
        decreases v@.len() - i,
    {
        let ghost prev = r@;
        r.push(owned(v[i].as_str()));
        assert(crate::text::strings_view(r@) =~= crate::text::strings_view(prev).push(v@[i as int]@));
        assert(crate::text::strings_view(r@) =~= crate::text::strings_view(v@).take(i + 1));
        i = i + 1;
    }
    assert(crate::text::strings_view(v@).take(i as int) =~= crate::text::strings_view(v@));
    r
}

fn push_lake(out: &mut String, l: &LakeSettings)
    ensures
        final(out)@ == old(out)@ + lake_section(l),
{
    let ghost base = out@;
    push_table(out, "lake");
    let v = toml_text(l.path.as_str());
    push_field(out, "path", v.as_str(), Ghost(TomlValueView::Text(l.path@)), LAKE_PATH_COMMENT);
    if l.ignore.len() > 0 {
        let v = toml_texts(&l.ignore);
        push_field(
            out,
            "ignore",
            v.as_str(),
            Ghost(TomlValueView::Texts(crate::text::strings_view(l.ignore@))),
            LAKE_IGNORE_COMMENT,
        );
    }
    assert(out@ =~= base + lake_section(l));
}

fn push_optional(out: &mut String, name: &str, v: &Option<String>)
    ensures
        final(out)@ == old(out)@ + optional_field(name@, *v),
{
    match v {
        Some(s) => {
            let t = toml_text(s.as_str());
            push_bare(out, name, t.as_str(), Ghost(TomlValueView::Text(s@)));
        },
        None => {
            assert(out@ =~= old(out)@ + Seq::<char>::empty());
        },
    }
}

fn push_upstream(out: &mut String, i: usize, domain: &EntryAtom, u: &UpstreamSettings)
    ensures
        final(out)@ == old(out)@ + upstream_block(i as int, domain@, u),
{
    let ghost base = out@;
    if i > 0 {
        push_str(out, "\n");
    }
    let ghost a = out@;
    let mut name = String::new();
    push_str(&mut name, "upstreams.");
    push_str(&mut name, domain.as_str());
    push_table(out, name.as_str());
    if i == 0 {
        push_str(out, UPSTREAM_COMMENT_LINE);
    }
    let ghost b = out@;
    let g = toml_text(u.git.as_str());
    push_bare(out, "git", g.as_str(), Ghost(TomlValueView::Text(u.git@)));
    push_optional(out, "branch", &u.branch);
    push_optional(out, "tag", &u.tag);
    push_optional(out, "rev", &u.rev);
    if !project_is_default(u.project.as_str()) {
        let p = toml_text(u.project.as_str());
        push_bare(out, "project", p.as_str(), Ghost(TomlValueView::Text(u.project@)));
    }
    assert(out@ =~= base + upstream_block(i as int, domain@, u));
}

fn push_upstreams(out: &mut String, ups: &Vec<(EntryAtom, UpstreamSettings)>)
    ensures
        final(out)@ == old(out)@ + upstream_blocks(ups@),
{
    let ghost base = out@;
    let mut i: usize = 0;
    assert(ups@.take(0) =~= Seq::<(EntryAtom, UpstreamSettings)>::empty());
    assert(base + Seq::<char>::empty() =~= base);
    while i < ups.len()
        invariant
            i <= ups@.len(),
            out@ == base + upstream_blocks(ups@.take(i as int)),
        decreases ups@.len() - i,
    {
        assert(ups@.take(i + 1).drop_last() =~= ups@.take(i as int));
        assert(ups@.take(i + 1).last() == ups@[i as int]);
        push_upstream(out, i, &ups[i].0, &ups[i].1);
        assert(out@ =~= base + upstream_blocks(ups@.take(i + 1)));
        i = i + 1;
    }
    assert(ups@.take(i as int) =~= ups@);
}

fn push_repo(out: &mut String, repo: &RepoSettings)
    ensures
        final(out)@ == old(out)@ + ("\n"@ + table_line("repo"@) + commented_field(
            "members"@,
            TomlValueView::Texts(members_view(repo.members@)),
            REPO_MEMBERS_COMMENT@,
        )),
{
    let ghost base = out@;
    push_str(out, "\n");
    push_table(out, "repo");
    let mut patterns: Vec<String> = Vec::new();
    let mut i: usize = 0;
    while i < repo.members.len()
        invariant
            i <= repo.members@.len(),
            crate::text::strings_view(patterns@) == members_view(repo.members@).take(i as int),
        decreases repo.members@.len() - i,
    {
        let ghost prev = patterns@;
        patterns.push(owned(repo.members[i].as_str()));
        assert(crate::text::strings_view(patterns@) =~= crate::text::strings_view(prev).push(repo.members@[i as int]@));
        assert(crate::text::strings_view(patterns@) =~= members_view(repo.members@).take(i + 1));
        i = i + 1;
    }
    assert(members_view(repo.members@).take(i as int) =~= members_view(repo.members@));
    let v = toml_texts(&patterns);
    push_field(
        out,
        "members",
        v.as_str(),
        Ghost(TomlValueView::Texts(members_view(repo.members@))),
        REPO_MEMBERS_COMMENT,
    );
    assert(out@ =~= base + ("\n"@ + table_line("repo"@) + commented_field(
        "members"@,
        TomlValueView::Texts(members_view(repo.members@)),
        REPO_MEMBERS_COMMENT@,
    )));
}

fn push_delimiter(out: &mut String, i: usize, d: &WitnessDelimiterSettings)
    ensures
        final(out)@ == old(out)@ + delimiter_block(i as int, d),
{
    let ghost base = out@;
    if i > 0 {
        push_str(out, "\n");
    }
    push_str(out, "[[");
    push_str(out, "witness.delimiters");
    push_str(out, "]]\n");
    let b = toml_text(d.begin.as_str());
    push_bare(out, "begin", b.as_str(), Ghost(TomlValueView::Text(d.begin@)));
    let e = toml_text(d.end.as_str());
    push_bare(out, "end", e.as_str(), Ghost(TomlValueView::Text(d.end@)));
    assert(out@ =~= base + delimiter_block(i as int, d));
}

fn push_witness(out: &mut String, w: &WitnessSettings)
    ensures
        final(out)@ == old(out)@ + witness_section(w),
{
    let ghost base = out@;
    push_table(out, "witness");
    push_str(out, WITNESS_COMMENT_LINE);
    push_str(out, CAPTURE_COMMENT_PREFIX);
    push_str(out, WITNESS_ENTRY_ADDRESS_CAPTURE_REGEX);
    push_str(out, "\n");
    let ghost head = out@;
    let ghost ds = w.delimiters@;
    let mut i: usize = 0;
    assert(ds.take(0) =~= Seq::<WitnessDelimiterSettings>::empty());
    assert(head + Seq::<char>::empty() =~= head);
    while i < w.delimiters.len()
        invariant
            i <= ds.len(),
            ds == w.delimiters@,
            out@ == head + delimiter_blocks(ds.take(i as int)),
        decreases ds.len() - i,
    {
        assert(ds.take(i + 1).drop_last() =~= ds.take(i as int));
        assert(ds.take(i + 1).last() == ds[i as int]);
        push_delimiter(out, i, &w.delimiters[i]);
        assert(out@ =~= head + delimiter_blocks(ds.take(i + 1)));
        i = i + 1;
    }
    assert(ds.take(i as int) =~= ds);
    assert(out@ =~= base + witness_section(w));
}

fn push_check(out: &mut String, c: CheckSettings)
    ensures
        final(out)@ == old(out)@ + check_section(c),
{
    let ghost base = out@;
    if c.has_explicit_flags() {
        push_str(out, "\n");
        push_table(out, "check");
        match c.render {
            Some(b) => {
                let v = toml_flag(b);
                push_field(out, "render", v.as_str(), Ghost(TomlValueView::Flag(b)), CHECK_RENDER_COMMENT);
            },
            None => {},
        }
        match c.structural_inhabitance {
            Some(b) => {
                let v = toml_flag(b);
                push_field(
                    out,
                    "structural-inhabitance",
                    v.as_str(),
                    Ghost(TomlValueView::Flag(b)),
                    CHECK_INHABITANCE_COMMENT,
                );
            },
            None => {},
        }
    }
    assert(out@ =~= base + check_section(c));
}

fn push_tutorial(out: &mut String, t: Option<TutorialSettings>)
    ensures
        final(out)@ == old(out)@ + tutorial_section(t),
{
    let ghost base = out@;
    match t {
        Some(t) => {
            push_str(out, "\n");
            push_table(out, "tutorial");
            push_str(out, TUTORIAL_PRESENCE_LINE);
            push_str(out, TUTORIAL_REMOVE_LINE);
            let a = toml_flag(t.frost_commit_tide);
            push_field(
                out,
                "frost_commit_tide",
                a.as_str(),
                Ghost(TomlValueView::Flag(t.frost_commit_tide)),
                TUTORIAL_COMMIT_COMMENT,
            );
            let b = toml_flag(t.frost_bootstrap_tide);
            push_field(
                out,
                "frost_bootstrap_tide",
                b.as_str(),
                Ghost(TomlValueView::Flag(t.frost_bootstrap_tide)),
                TUTORIAL_BOOTSTRAP_COMMENT,
            );
        },
        None => {},
    }
    assert(out@ =~= base + tutorial_section(t));
}

fn push_structural(out: &mut String, structural: &StructuralSettings)
    ensures
        final(out)@ == old(out)@ + structural_section(structural@),
{
    let ghost base = out@;
    let ghost rs = structural@;
    push_str(out, "\n");
    push_table(out, "structural");
    let relations = structural.relations();
    assert(relations@.len() == rs.len());
    if relations.len() > 0 {
        push_str(out, STRUCTURAL_COMMENT_LINES);
    }
    let ghost head = out@;
    let mut i: usize = 0;
    assert(rs.take(0) =~= Seq::<(Seq<char>, Option<Seq<char>>)>::empty());
    assert(head + Seq::<char>::empty() =~= head);
    while i < relations.len()
        invariant
            i <= rs.len(),
            relations@.len() == rs.len(),
            forall|k: int|
                0 <= k < rs.len() ==> rs[k] == crate::structural::relation_view(
                    #[trigger] relations@[k],
                ),
            out@ == head + relation_blocks(rs.take(i as int)),
        decreases rs.len() - i,
    {
        assert(rs.take(i + 1).drop_last() =~= rs.take(i as int));
        assert(rs.take(i + 1).last() == rs[i as int]);
        let ghost before = out@;
        let relation = &relations[i];
        let mut name = String::new();
        push_str(&mut name, "structural.");
        push_str(&mut name, relation.field.as_str());
        push_str(out, "\n");
        push_table(out, name.as_str());
        match &relation.entry {
            Some(e) => {
                let v = toml_text(e.as_str());
                push_bare(out, "entry", v.as_str(), Ghost(TomlValueView::Text(e@)));
            },
            None => {},
        }
        assert(out@ =~= before + relation_block(rs[i as int]));
        assert(out@ =~= head + relation_blocks(rs.take(i + 1)));
        i = i + 1;
    }
    assert(rs.take(i as int) =~= rs);
    assert(out@ =~= base + structural_section(rs));
}

fn push_render(out: &mut String, render: &RenderSettings)
    ensures
        final(out)@ == old(out)@ + render_section(render),
{
    let ghost base = out@;
    let ghost fs = render.structural@;
    if render.structural.len() > 0 {
        push_str(out, "\n");
        push_table(out, "render.structural");
        push_str(out, RENDER_COMMENT_LINES);
        let ghost head = out@;
        let mut i: usize = 0;
        assert(fs.take(0) =~= Seq::<(String, Vec<StructuralEdgeDirection>)>::empty());
        assert(head + Seq::<char>::empty() =~= head);
        while i < render.structural.len()
            invariant
                i <= fs.len(),
                fs == render.structural@,
                out@ == head + render_fields(fs.take(i as int)),
            decreases fs.len() - i,
        {
            assert(fs.take(i + 1).drop_last() =~= fs.take(i as int));
            assert(fs.take(i + 1).last() == fs[i as int]);
            let directions = &render.structural[i].1;
            let mut labels: Vec<String> = Vec::new();
            let mut k: usize = 0;
            while k < directions.len()
                invariant
                    k <= directions@.len(),
                    crate::text::strings_view(labels@) == direction_labels(directions@).take(
                        k as int,
                    ),
                decreases directions@.len() - k,
            {
                let ghost prev = labels@;
                labels.push(directions[k].label());
                assert(crate::text::strings_view(labels@) =~= crate::text::strings_view(prev).push(directions@[k as int].spec_label()));
                assert(crate::text::strings_view(labels@) =~= direction_labels(directions@).take(
                    k + 1,
                ));
                k = k + 1;
            }
            assert(direction_labels(directions@).take(k as int) =~= direction_labels(
                directions@,
            ));
            let v = toml_texts(&labels);
            push_bare(
                out,
                render.structural[i].0.as_str(),
                v.as_str(),
                Ghost(TomlValueView::Texts(direction_labels(directions@))),
            );
            assert(out@ =~= head + render_fields(fs.take(i + 1)));
            i = i + 1;
        }
        assert(fs.take(i as int) =~= fs);
    }
    assert(out@ =~= base + render_section(render));
}

/// Renders a config as canonical commented TOML.
struct ConfigRenderer {
    out: String,
}

impl ConfigRenderer {
    /// The canonical commented TOML text of a config.
    fn render(config: &SirnoConfig) -> (r: String)
        ensures
            r@ == config_text(config),
    {
        let mut renderer = ConfigRenderer { out: String::new() };
        renderer.push_config(config);
        renderer.out
    }

    /// Append the tables of a config, in canonical order.
    fn push_config(&mut self, config: &SirnoConfig)
        ensures
            final(self).out@ == old(self).out@ + config_text(config),
    {
        let ghost base = self.out@;
        let ghost l = lake_section(&config.lake);
        let ghost u = upstreams_part(config);
        let ghost rp = repo_part(config);
        let ghost w = witness_section(&config.witness);
        let ghost ch = check_section(config.check);
        let ghost t = tutorial_section(config.tutorial);
        let ghost st = structural_section(config.structural@);
        let ghost rn = render_section(&config.render);
        push_lake(&mut self.out, &config.lake);
        let ghost s1 = self.out@;
        if config.upstreams.len() > 0 {
            push_str(&mut self.out, "\n");
            push_upstreams(&mut self.out, &config.upstreams);
            proof {
                lemma_assoc(s1, "\n"@, upstream_blocks(config.upstreams@));
            }
        } else {
            assert(s1 + u =~= s1);
        }
        let ghost s2 = self.out@;
        assert(s2 == s1 + u);
        match &config.repo {
            Some(repo) => push_repo(&mut self.out, repo),
            None => {
                assert(s2 + rp =~= s2);
            },
        }
        let ghost s3 = self.out@;
        assert(s3 == s2 + rp);
        push_str(&mut self.out, "\n");
        push_witness(&mut self.out, &config.witness);
        push_check(&mut self.out, config.check);
        push_tutorial(&mut self.out, config.tutorial);
        push_structural(&mut self.out, &config.structural);
        push_render(&mut self.out, &config.render);
        proof {
            let x1 = l;
            let x2 = x1 + u;
            let x3 = x2 + rp;
            let x4 = x3 + "\n"@;
            let x5 = x4 + w;
            let x6 = x5 + ch;
            let x7 = x6 + t;
            let x8 = x7 + st;
            let x9 = x8 + rn;
            assert(config_text(config) == x9);
            lemma_assoc(base, l, u);
            lemma_assoc(base, x2, rp);
            lemma_assoc(base, x3, "\n"@);
            lemma_assoc(base, x4, w);
            lemma_assoc(base, x5, ch);
            lemma_assoc(base, x6, t);
            lemma_assoc(base, x7, st);
            lemma_assoc(base, x8, rn);
        }
    }
}


/// Comment texts of the lines that start with `# `, in order.
pub open spec fn comment_texts(lines: Seq<Seq<char>>) -> Seq<Seq<char>>
    decreases lines.len(),
{
    if lines.len() == 0 {
        Seq::empty()
    } else {
        let rest = comment_texts(lines.drop_last());
        let l = lines.last();
        if crate::text::has_prefix(l, "# "@) {
            rest.push(l.subrange(2, l.len() as int))
        } else {
            rest
        }
    }
}

/// The comments that no current line writes as `# COMMENT`, in order.
pub open spec fn missing_comments(expected: Seq<Seq<char>>, current: Seq<Seq<char>>) -> Seq<
    Seq<char>,
>
    decreases expected.len(),
{
    if expected.len() == 0 {
        Seq::empty()
    } else {
        let rest = missing_comments(expected.drop_last(), current);
        let c = expected.last();
        if current.contains("# "@ + c) {
            rest
        } else {
            rest.push(c)
        }
    }
}

/// Every comment line among `lines` is its own trimmed form.
pub open spec fn comment_lines_trimmed(lines: Seq<Seq<char>>) -> bool {
    forall|i: int|
        0 <= i < lines.len() && crate::text::has_prefix(lines[i], "# "@) ==> trim(#[trigger] lines[i])
            == lines[i]
}

/// `t` is the text of a comment line among `lines`: that line without its `# `.
pub open spec fn comment_of_line(lines: Seq<Seq<char>>, t: Seq<char>) -> bool {
    exists|i: int|
        0 <= i < lines.len() && crate::text::has_prefix(lines[i], "# "@) && t == lines[i].subrange(
            2,
            lines[i].len() as int,
        )
}

/// Each comment text comes from a comment line.
proof fn lemma_comment_texts_from(lines: Seq<Seq<char>>)
    ensures
        forall|k: int|
            0 <= k < comment_texts(lines).len() ==> #[trigger] comment_of_line(
                lines,
                comment_texts(lines)[k],
            ),
    decreases lines.len(),
{
    if lines.len() > 0 {
        let init = lines.drop_last();
        lemma_comment_texts_from(init);
        let rest = comment_texts(init);
        let l = lines.last();
        let ct = comment_texts(lines);
        assert(ct == if crate::text::has_prefix(l, "# "@) {
            rest.push(l.subrange(2, l.len() as int))
        } else {
            rest
        });
        assert forall|k: int| 0 <= k < ct.len() implies #[trigger] comment_of_line(lines, ct[k]) by {
            if k < rest.len() {
                assert(ct[k] == rest[k]);
                assert(comment_of_line(init, rest[k]));
                let i = choose|i: int|
                    0 <= i < init.len() && crate::text::has_prefix(init[i], "# "@) && rest[k]
                        == init[i].subrange(2, init[i].len() as int);
                assert(lines[i] == init[i]);
            } else {
                let j = lines.len() - 1;
                assert(lines[j] == l);
                assert(ct[k] == l.subrange(2, l.len() as int));
            }
        }
    }
}

/// No comment is missing when every expected one stands on a line.
proof fn lemma_none_missing(expected: Seq<Seq<char>>, current: Seq<Seq<char>>)
    requires
        forall|k: int| 0 <= k < expected.len() ==> current.contains("# "@ + #[trigger] expected[k]),
    ensures
        missing_comments(expected, current) == Seq::<Seq<char>>::empty(),
    decreases expected.len(),
{
    if expected.len() > 0 {
        let init = expected.drop_last();
        assert forall|k: int| 0 <= k < init.len() implies current.contains("# "@ + #[trigger] init[k]) by {
            assert(init[k] == expected[k]);
        }
        lemma_none_missing(init, current);
        assert(current.contains("# "@ + expected[expected.len() - 1]));
    }
}

/// Restoring the canonical text leaves no comment missing: a config's canonical text holds
/// every one of its comments on a line of its own, provided no comment line of it ends in
/// white space (which trimming would take off).
pub proof fn law_canonical_text_has_every_comment(c: SirnoConfig)
    requires
        comment_lines_trimmed(lines_of(config_text(&c))),
    ensures
        missing_comments(
            comment_texts(lines_of(config_text(&c))),
            trimmed_lines(lines_of(config_text(&c))),
        ) == Seq::<Seq<char>>::empty(),
{
    reveal_strlit("# ");
    let lines = lines_of(config_text(&c));
    let expected = comment_texts(lines);
    let current = trimmed_lines(lines);
    lemma_comment_texts_from(lines);
    assert forall|k: int| 0 <= k < expected.len() implies current.contains("# "@ + #[trigger] expected[k]) by {
        assert(comment_of_line(lines, expected[k]));
        let i = choose|i: int|
            0 <= i < lines.len() && crate::text::has_prefix(lines[i], "# "@) && expected[k]
                == lines[i].subrange(2, lines[i].len() as int);
        assert("# "@ + expected[k] =~= lines[i]);
        assert(current[i] == trim(lines[i]));
        assert(trim(lines[i]) == lines[i]);
    }
    lemma_none_missing(expected, current);
}

/// Trimmed lines.
pub open spec fn trimmed_lines(lines: Seq<Seq<char>>) -> Seq<Seq<char>> {
    lines.map_values(|l: Seq<char>| trim(l))
}

/// Whether `x` is among `lines`.
fn lines_contain(lines: &Vec<Vec<char>>, x: &Vec<char>) -> (r: bool)
    ensures
        r == lines@.map_values(|l: Vec<char>| l@).contains(x@),
{
    let ghost v = lines@.map_values(|l: Vec<char>| l@);
    let mut i: usize = 0;
    while i < lines.len()
        invariant
            i <= lines@.len(),
            v == lines@.map_values(|l: Vec<char>| l@),
            forall|k: int| 0 <= k < i ==> #[trigger] v[k] != x@,
        decreases lines@.len() - i,
    {
        if crate::text::slice_eq(lines[i].as_slice(), x.as_slice()) {
            assert(v[i as int] == x@);
            return true;
        }
        i = i + 1;
    }
    false
}

impl SirnoConfig {
    /// A config with the given lake path and defaults elsewhere.
    pub fn new(lake: &str) -> (r: Self)
        ensures
            r.lake.path@ == lake@,
            r.lake.ignore@.len() == 0,
            r.upstreams@.len() == 0,
            r.repo is None,
            r.witness.delimiters@.len() == 2,
            r.witness.delimiters@[0].begin@ == STANDARD_LINE_WITNESS_BEGIN_REGEX@,
            r.witness.delimiters@[0].end@ == STANDARD_LINE_WITNESS_END_REGEX@,
            r.witness.delimiters@[1].begin@ == STANDARD_MARKDOWN_WITNESS_BEGIN_REGEX@,
            r.witness.delimiters@[1].end@ == STANDARD_MARKDOWN_WITNESS_END_REGEX@,
            r.check == (CheckSettings { render: None, structural_inhabitance: None }),
            r.tutorial is None,
            r.structural@.len() == 0,
            r.render.structural@.len() == 0,
    {
        SirnoConfig {
            lake: LakeSettings::new(lake),
            upstreams: Vec::new(),
            repo: None,
            witness: WitnessSettings::standard(),
            check: CheckSettings::default(),
            tutorial: None,
            structural: StructuralSettings::new(),
            render: RenderSettings::new(),
        }
    }

    /// The default config of a new managed repository: the lake lives in `docs`.
    pub fn default_project() -> (r: Self)
        ensures
            r.lake.path@ == "docs"@,
            r.lake.ignore@.len() == 0,
            r.upstreams@.len() == 0,
            r.repo is None,
            r.witness.delimiters@.len() == 2,
            r.check == (CheckSettings { render: None, structural_inhabitance: None }),
            r.tutorial is None,
            r.structural@.len() == 0,
            r.render.structural@.len() == 0,
    {
        SirnoConfig::new("docs")
    }

    /// This config with another lake path.
    pub fn with_lake(self, lake: &str) -> (r: Self)
        ensures
            r.lake.path@ == lake@,
            r.lake.ignore@ == self.lake.ignore@,
            r.upstreams@ == self.upstreams@,
            r.tutorial == self.tutorial,
            r.check == self.check,
    {
        let mut c = self;
        c.lake.path = owned(lake);
        c
    }

    /// This config with every tutorial enabled.
    pub fn with_tutorial(self) -> (r: Self)
        ensures
            r.tutorial == Some(TutorialSettings { frost_commit_tide: true, frost_bootstrap_tide: true }),
            r.lake.path@ == self.lake.path@,
            r.upstreams@ == self.upstreams@,
            r.check == self.check,
    {
        let mut c = self;
        c.tutorial = Some(TutorialSettings::all());
        c
    }

    /// The canonical commented TOML text of this config.
    pub fn to_commented_toml(&self) -> (r: String)
        ensures
            r@ == config_text(self),
    {
        ConfigRenderer::render(self)
    }

    /// The canonical comment texts that `source` does not write as `# COMMENT` on a line of
    /// its own (surrounding white space aside), in canonical order.
    pub fn missing_comments_in(&self, source: &str) -> (r: Vec<String>)
        ensures
            crate::text::strings_view(r@) == missing_comments(
                comment_texts(crate::text::lines_of(config_text(self))),
                trimmed_lines(crate::text::lines_of(source@)),
            ),
    {
        let text = self.to_commented_toml();
        let text_chars = chars_of(text.as_str());
        let lines = crate::text::lines_slice(text_chars.as_slice());
        let ghost lv = lines@.map_values(|l: Vec<char>| l@);
        let prefix = chars_of("# ");
        proof {
            reveal_strlit("# ");
        }
        assert(prefix@.len() == 2);
        let mut expected: Vec<Vec<char>> = Vec::new();
        let mut i: usize = 0;
        assert(lv.take(0) =~= Seq::<Seq<char>>::empty());
        assert(expected@.map_values(|l: Vec<char>| l@) =~= Seq::<Seq<char>>::empty());
        while i < lines.len()
            invariant
                i <= lv.len(),
                lv == lines@.map_values(|l: Vec<char>| l@),
                prefix@ == "# "@,
                prefix@.len() == 2,
                expected@.map_values(|l: Vec<char>| l@) == comment_texts(lv.take(i as int)),
            decreases lv.len() - i,
        {
            assert(lv.take(i + 1).drop_last() =~= lv.take(i as int));
            assert(lv.take(i + 1).last() == lines@[i as int]@);
            let ghost prev = expected@;
            if crate::text::slice_has_prefix(lines[i].as_slice(), prefix.as_slice()) {
                let n = lines[i].len();
                let comment = crate::text::slice_range(lines[i].as_slice(), 2, n);
                expected.push(comment);
                assert(expected@.map_values(|l: Vec<char>| l@) =~= prev.map_values(
                    |l: Vec<char>| l@,
                ).push(lines@[i as int]@.subrange(2, n as int)));
            }
            i = i + 1;
        }
        assert(lv.take(i as int) =~= lv);
        let source_chars = chars_of(source);
        let source_lines = crate::text::lines_slice(source_chars.as_slice());
        let ghost sv = source_lines@.map_values(|l: Vec<char>| l@);
        let mut current: Vec<Vec<char>> = Vec::new();
        let mut j: usize = 0;
        while j < source_lines.len()
            invariant
                j <= sv.len(),
                sv == source_lines@.map_values(|l: Vec<char>| l@),
                current@.map_values(|l: Vec<char>| l@) == trimmed_lines(sv).take(j as int),
            decreases sv.len() - j,
        {
            let ghost prev = current@;
            current.push(trim_slice(source_lines[j].as_slice()));
            assert(current@.map_values(|l: Vec<char>| l@) =~= prev.map_values(|l: Vec<char>| l@).push(
                trim(sv[j as int]),
            ));
            assert(current@.map_values(|l: Vec<char>| l@) =~= trimmed_lines(sv).take(j + 1));
            j = j + 1;
        }
        assert(trimmed_lines(sv).take(j as int) =~= trimmed_lines(sv));
        let ghost ev = expected@.map_values(|l: Vec<char>| l@);
        let ghost cv = current@.map_values(|l: Vec<char>| l@);
        let mut out: Vec<String> = Vec::new();
        let mut k: usize = 0;
        assert(ev.take(0) =~= Seq::<Seq<char>>::empty());
        assert(crate::text::strings_view(out@) =~= Seq::<Seq<char>>::empty());
        while k < expected.len()
            invariant
                k <= ev.len(),
                ev == expected@.map_values(|l: Vec<char>| l@),
                cv == current@.map_values(|l: Vec<char>| l@),
                prefix@ == "# "@,
                crate::text::strings_view(out@) == missing_comments(ev.take(k as int), cv),
            decreases ev.len() - k,
        {
            assert(ev.take(k + 1).drop_last() =~= ev.take(k as int));
            assert(ev.take(k + 1).last() == expected@[k as int]@);
            let mut line = prefix.clone();
            let mut m: usize = 0;
            while m < expected[k].len()
                invariant
                    m <= expected@[k as int]@.len(),
                    k < expected@.len(),
                    line@ == prefix@ + expected@[k as int]@.take(m as int),
                decreases expected@[k as int]@.len() - m,
            {
                line.push(expected[k][m]);
                assert(line@ =~= prefix@ + expected@[k as int]@.take(m + 1));
                m = m + 1;
            }
            assert(expected@[k as int]@.take(m as int) =~= expected@[k as int]@);
            let ghost prev = out@;
            if !lines_contain(&current, &line) {
                out.push(crate::text::string_from(expected[k].as_slice()));
                assert(crate::text::strings_view(out@) =~= crate::text::strings_view(prev).push(
                    expected@[k as int]@,
                ));
            }
            k = k + 1;
        }
        assert(ev.take(k as int) =~= ev);
        out
    }
}


/// No direction occurs twice.
pub open spec fn distinct_directions(ds: Seq<StructuralEdgeDirection>) -> bool {
    forall|a: int, b: int| 0 <= a < b < ds.len() ==> #[trigger] ds[a] != #[trigger] ds[b]
}

/// Every relation field can be a metadata key and is not reserved.
pub open spec fn structural_fields_ok(rs: Seq<(Seq<char>, Option<Seq<char>>)>) -> bool {
    forall|i: int|
        0 <= i < rs.len() ==> !malformed_field_name(#[trigger] rs[i].0) && !reserved_field_name(
            rs[i].0,
        )
}

/// Every rendered relation is configured and lists each direction once.
pub open spec fn render_ok(
    fs: Seq<(String, Vec<StructuralEdgeDirection>)>,
    rs: Seq<(Seq<char>, Option<Seq<char>>)>,
) -> bool {
    forall|i: int|
        0 <= i < fs.len() ==> has_relation(rs, (#[trigger] fs[i]).0@) && distinct_directions(
            fs[i].1@,
        )
}

/// Every upstream declaration is valid.
pub open spec fn upstreams_ok(ups: Seq<(EntryAtom, UpstreamSettings)>) -> bool {
    forall|i: int| 0 <= i < ups.len() ==> upstream_problem(&(#[trigger] ups[i]).1) is None
}

/// Every ignored lake path stays inside the lake.
pub open spec fn lake_ok(l: &LakeSettings) -> bool {
    forall|i: int| 0 <= i < l.ignore@.len() ==> !escapes_root(#[trigger] l.ignore@[i]@)
}

/// Every witness delimiter regex is usable.
pub open spec fn witness_ok(w: &WitnessSettings) -> bool {
    forall|i: int|
        0 <= i < w.delimiters@.len() ==> regex_problem((#[trigger] w.delimiters@[i]).begin@) is None
            && regex_problem(w.delimiters@[i].end@) is None
}

/// Index of the first direction that repeats an earlier one, or the length.
fn first_repeat(ds: &Vec<StructuralEdgeDirection>) -> (r: usize)
    ensures
        r <= ds@.len(),
        r == ds@.len() <==> distinct_directions(ds@),
        r < ds@.len() ==> exists|a: int| 0 <= a < r && ds@[a] == ds@[r as int],
{
    let mut j: usize = 0;
    while j < ds.len()
        invariant
            j <= ds@.len(),
            distinct_directions(ds@.take(j as int)),
        decreases ds@.len() - j,
    {
        let mut a: usize = 0;
        while a < j
            invariant
                a <= j < ds@.len(),
                forall|b: int| 0 <= b < a ==> ds@[b] != ds@[j as int],
            decreases j - a,
        {
            if ds[a] == ds[j] {
                assert(!distinct_directions(ds@)) by {
                    assert(ds@[a as int] == ds@[j as int]);
                }
                return j;
            }
            a = a + 1;
        }
        assert forall|x: int, y: int| 0 <= x < y < j + 1 implies #[trigger] ds@.take(j + 1)[x]
            != #[trigger] ds@.take(j + 1)[y] by {
            if y < j {
                assert(ds@.take(j as int)[x] != ds@.take(j as int)[y]);
            }
        }
        j = j + 1;
    }
    assert(ds@.take(j as int) =~= ds@);
    j
}

impl SirnoConfig {
    /// Check that every relation field can be a metadata key and is not reserved.
    pub fn validate_structural_fields(&self) -> (r: Result<(), ConfigError>)
        ensures
            r is Ok <==> structural_fields_ok(self.structural@),
            r matches Err(e) ==> (e matches ConfigError::StructuralFieldName(_) || e matches ConfigError::ReservedStructuralField(_)),
    {
        let relations = self.structural.relations();
        let ghost rs = self.structural@;
        let mut i: usize = 0;
        while i < relations.len()
            invariant
                i <= relations@.len(),
                rs == self.structural@,
                relations@.len() == rs.len(),
                forall|k: int|
                    0 <= k < rs.len() ==> rs[k] == crate::structural::relation_view(
                        #[trigger] relations@[k],
                    ),
                forall|k: int|
                    0 <= k < i ==> !malformed_field_name(#[trigger] rs[k].0)
                        && !reserved_field_name(rs[k].0),
            decreases rs.len() - i,
        {
            assert(rs[i as int].0 == relations@[i as int].field@);
            match validate_structural_field_name(relations[i].field.as_str()) {
                Err(FieldNameError::Malformed) => {
                    assert(malformed_field_name(rs[i as int].0));
                    assert(!structural_fields_ok(rs));
                    return Err(ConfigError::StructuralFieldName(owned(relations[i].field.as_str())));
                },
                Err(FieldNameError::Reserved) => {
                    assert(reserved_field_name(rs[i as int].0));
                    assert(!structural_fields_ok(rs));
                    return Err(
                        ConfigError::ReservedStructuralField(owned(relations[i].field.as_str())),
                    );
                },
                Ok(()) => {},
            }
            i = i + 1;
        }
        Ok(())
    }

    /// Check that every rendered relation is configured and lists each direction once.
    pub fn validate_render_settings(&self) -> (r: Result<(), ConfigError>)
        ensures
            r is Ok <==> render_ok(self.render.structural@, self.structural@),
            r matches Err(e) ==> (e matches ConfigError::RenderStructuralField(_) || e matches ConfigError::DuplicateRenderStructuralDirection { .. }),
    {
        let ghost fs = self.render.structural@;
        let mut i: usize = 0;
        while i < self.render.structural.len()
            invariant
                i <= fs.len(),
                fs == self.render.structural@,
                forall|k: int|
                    0 <= k < i ==> has_relation(self.structural@, (#[trigger] fs[k]).0@)
                        && distinct_directions(fs[k].1@),
            decreases fs.len() - i,
        {
            let field = self.render.structural[i].0.as_str();
            if !self.structural.contains_field(field) {
                return Err(ConfigError::RenderStructuralField(owned(field)));
            }
            let directions = &self.render.structural[i].1;
            let j = first_repeat(directions);
            if j < directions.len() {
                return Err(
                    ConfigError::DuplicateRenderStructuralDirection {
                        field: owned(field),
                        direction: directions[j].label(),
                    },
                );
            }
            i = i + 1;
        }
        Ok(())
    }

    /// Check the whole config: lake ignores, upstreams, relation fields, render settings
    /// and witness delimiters, in that order.
    pub fn validate_for_file(&self) -> (r: Result<(), ConfigError>)
        ensures
            r is Ok <==> lake_ok(&self.lake) && upstreams_ok(self.upstreams@) && structural_fields_ok(
                self.structural@,
            ) && render_ok(self.render.structural@, self.structural@) && witness_ok(&self.witness),
            !lake_ok(&self.lake) ==> r matches Err(ConfigError::LakeIgnorePath(_)),
    {
        match self.lake.validate() {
            Err(e) => {
                assert(e is LakeIgnorePath);
                return Err(e);
            },
            Ok(()) => {},
        }
        let mut i: usize = 0;
        while i < self.upstreams.len()
            invariant
                i <= self.upstreams@.len(),
                lake_ok(&self.lake),
                forall|k: int|
                    0 <= k < i ==> upstream_problem(&(#[trigger] self.upstreams@[k]).1) is None,
            decreases self.upstreams@.len() - i,
        {
            match self.upstreams[i].1.validate(&self.upstreams[i].0) {
                Err(e) => { return Err(e); },
                Ok(()) => {},
            }
            i = i + 1;
        }
        match self.validate_structural_fields() {
            Err(e) => { return Err(e); },
            Ok(()) => {},
        }
        match self.validate_render_settings() {
            Err(e) => { return Err(e); },
            Ok(()) => {},
        }
        self.witness.validate()
    }

    /// Set one upstream declaration: replaced in place when the domain is configured,
    /// appended otherwise.
    pub fn with_upstream(self, domain: EntryAtom, settings: UpstreamSettings) -> (r: Self)
        ensures
            ({
                let i = upstream_index(self.upstreams@, domain@);
                if i >= 0 {
                    r.upstreams@.len() == self.upstreams@.len() && r.upstreams@[i].0@ == domain@
                        && forall|k: int|
                        0 <= k < self.upstreams@.len() && k != i ==> #[trigger] r.upstreams@[k]
                            == self.upstreams@[k]
                } else {
                    r.upstreams@.len() == self.upstreams@.len() + 1 && r.upstreams@.last().0@
                        == domain@ && r.upstreams@.drop_last() == self.upstreams@
                }
            }),
            r.lake.path@ == self.lake.path@,
    {
        let mut c = self;
        let ghost before = c.upstreams@;
        let ghost lake_path = c.lake.path@;
        let mut i: usize = 0;
        while i < c.upstreams.len()
            invariant
                i <= before.len(),
                c.upstreams@ == before,
                before == self.upstreams@,
                c.lake.path@ == lake_path,
                lake_path == self.lake.path@,
                forall|k: int| 0 <= k < i ==> (#[trigger] before[k]).0@ != domain@,
            decreases before.len() - i,
        {
            if str_eq(c.upstreams[i].0.as_str(), domain.as_str()) {
                proof {
                    lemma_upstream_index_at(before, domain@, i as int);
                }
                c.upstreams.set(i, (domain, settings));
                assert(c.upstreams@ == before.update(i as int, c.upstreams@[i as int]));
                return c;
            }
            i = i + 1;
        }
        proof {
            lemma_upstream_index_none(before, domain@);
        }
        c.upstreams.push((domain, settings));
        assert(c.upstreams@.drop_last() =~= before);
        c
    }

    /// Remove one upstream declaration, keeping the order of the others.
    pub fn remove_upstream(&mut self, domain: &EntryAtom) -> (r: Option<UpstreamSettings>)
        ensures
            ({
                let i = upstream_index(old(self).upstreams@, domain@);
                if i >= 0 {
                    r is Some && final(self).upstreams@ == old(self).upstreams@.remove(i)
                } else {
                    r is None && final(self).upstreams@ == old(self).upstreams@
                }
            }),
    {
        let ghost before = self.upstreams@;
        let mut i: usize = 0;
        while i < self.upstreams.len()
            invariant
                i <= before.len(),
                self.upstreams@ == before,
                before == old(self).upstreams@,
                forall|k: int| 0 <= k < i ==> (#[trigger] before[k]).0@ != domain@,
            decreases before.len() - i,
        {
            if str_eq(self.upstreams[i].0.as_str(), domain.as_str()) {
                proof {
                    lemma_upstream_index_at(before, domain@, i as int);
                }
                let (_, settings) = self.upstreams.remove(i);
                return Some(settings);
            }
            i = i + 1;
        }
        proof {
            lemma_upstream_index_none(before, domain@);
        }
        None
    }
}

/// Position of the first upstream with domain `d`, or -1.
pub open spec fn upstream_index(ups: Seq<(EntryAtom, UpstreamSettings)>, d: Seq<char>) -> int
    decreases ups.len(),
{
    if ups.len() == 0 {
        -1
    } else if ups[0].0@ == d {
        0
    } else {
        let r = upstream_index(ups.drop_first(), d);
        if r < 0 {
            -1
        } else {
            r + 1
        }
    }
}

proof fn lemma_upstream_index_at(ups: Seq<(EntryAtom, UpstreamSettings)>, d: Seq<char>, i: int)
    requires
        0 <= i < ups.len(),
        ups[i].0@ == d,
        forall|k: int| 0 <= k < i ==> (#[trigger] ups[k]).0@ != d,
    ensures
        upstream_index(ups, d) == i,
    decreases i,
{
    if i > 0 {
        assert forall|k: int| 0 <= k < i - 1 implies (#[trigger] ups.drop_first()[k]).0@ != d by {
            assert(ups.drop_first()[k] == ups[k + 1]);
        }
        lemma_upstream_index_at(ups.drop_first(), d, i - 1);
    }
}

proof fn lemma_upstream_index_none(ups: Seq<(EntryAtom, UpstreamSettings)>, d: Seq<char>)
    requires
        forall|k: int| 0 <= k < ups.len() ==> (#[trigger] ups[k]).0@ != d,
    ensures
        upstream_index(ups, d) == -1,
    decreases ups.len(),
{
    if ups.len() > 0 {
        assert(ups[0].0@ != d);
        assert forall|k: int| 0 <= k < ups.len() - 1 implies (#[trigger] ups.drop_first()[k]).0@ != d by {
            assert(ups.drop_first()[k] == ups[k + 1]);
        }
        lemma_upstream_index_none(ups.drop_first(), d);
    }
}

/// An absolute path, one whose first character is `/`, escapes the root, whatever follows.
pub proof fn law_absolute_paths_escape(p: Seq<char>)
    requires
        p.len() > 0,
        p[0] == '/',
    ensures
        escapes_root(p),
{
}

/// A lake whose ignore list holds an absolute path fails validation, so the config that holds
/// it is refused with a lake-ignore error.
pub proof fn law_absolute_ignore_refused(l: LakeSettings, i: int)
    requires
        0 <= i < l.ignore@.len(),
        l.ignore@[i]@.len() > 0,
        l.ignore@[i]@[0] == '/',
    ensures
        !lake_ok(&l),
{
    law_absolute_paths_escape(l.ignore@[i]@);
}

/// An upstream declaration whose project path is absolute is never valid.
pub proof fn law_absolute_project_refused(u: UpstreamSettings)
    requires
        u.project@.len() > 0,
        u.project@[0] == '/',
    ensures
        upstream_problem(&u) is Some,
{
    law_absolute_paths_escape(u.project@);
}

/// The empty path escapes the root, and so does any path with a `..` component.
pub proof fn law_parent_paths_escape(p: Seq<char>, i: int)
    requires
        p.len() == 0 || (0 <= i < split_on(p, '/').len() && split_on(p, '/')[i] == seq!['.', '.']),
    ensures
        escapes_root(p),
{
}

} // verus!
