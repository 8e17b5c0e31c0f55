//! Command results, and the decisions that commands make around their file-system work.
//!
//! A command reads or writes the lake outside this library; the library decides what is
//! written, checks the inputs, and builds the result that is reported.

use vstd::prelude::*;

use crate::address::EntryAddress;
use crate::artifact::{EntryArtifactPath, EntryArtifactPathError, normal_parts, parent_dir, artifact_path_outcome};
use crate::config::{SirnoConfig, config_text, missing_comments, comment_texts, trimmed_lines};
use crate::entry::{Entry, EntryMetadata, EntryParseError, EntryView, MetadataView, FieldView, set_field, targets_of, is_plain};
use crate::query::QueryColumns;
use crate::report::{OpenTideTutorial, WitnessRecord, WitnessSpan, title_name};
use crate::structural::{StructuralSettings, has_relation};
use crate::text::{decimal, owned, push_decimal, push_str, split_on, strings_view, lines_of};

verus! {

/// Error raised by a command's decisions.
#[derive(Debug)]
pub enum CommandError {
    /// A structural field named in a request is not configured.
    UnconfiguredStructuralField(String),
    /// Entry metadata is not well-formed.
    Entry(EntryParseError),
    /// An artifact path is not usable.
    ArtifactPath(EntryArtifactPathError),
    /// An artifact source path names no file.
    ArtifactSourceHasNoFileName(String),
    /// Frost is already configured at another path.
    FrostAlreadyConfigured(String),
    /// A Frost command ran without a configured Frost path.
    FrostNotConfigured,
    /// The lake is an immutable checkout of this Frost version.
    ImmutableFrostCheckout(u64),
    /// A Frost commit found open tide workitems.
    OpenTide {
        /// Number of open workitems.
        count: usize,
        /// Tutorial text that follows the message.
        tutorial: OpenTideTutorial,
    },
    /// The empty Frost version cannot be checked out.
    InvalidFrostVersion(u64),
    /// A checkout named neither the latest version nor a version number.
    MissingFrostCheckoutTarget,
    /// A witness lookup ran without configured repository members.
    RepoMembersNotConfigured,
    /// A witness lookup named an entry that does not exist.
    MissingWitnessEntry(EntryAddress),
    /// Moving a configured path failed.
    Move(crate::relocate::PathMoveError),
}

/// Human-readable description of a command error.
pub open spec fn command_error_text(e: CommandError) -> Seq<char> {
    match e {
        CommandError::UnconfiguredStructuralField(f) => "structural field `"@ + f@
            + "` is not configured; add [structural."@ + f@ + "] to Sirno.toml"@,
        CommandError::Entry(p) => crate::entry::parse_error_text(p),
        CommandError::ArtifactPath(p) => crate::artifact::artifact_path_error_message(p),
        CommandError::ArtifactSourceHasNoFileName(p) => "artifact source has no file name: "@ + p@,
        CommandError::FrostAlreadyConfigured(p) => "frost is already configured at "@ + p@,
        CommandError::FrostNotConfigured => "frost is not configured; run `sirno frost init` first"@,
        CommandError::ImmutableFrostCheckout(v) => "frost version "@ + decimal(v as nat)
            + " is checked out immutably; use checkout --unsafe-mutable first"@,
        CommandError::OpenTide { count, tutorial } => "tide has "@ + decimal(count as nat)
            + " open workitems; run `sirno tide status`"@ + tutorial.spec_text(),
        CommandError::InvalidFrostVersion(v) => "frost version "@ + decimal(v as nat)
            + " is not a check-outable snapshot"@,
        CommandError::MissingFrostCheckoutTarget => "frost checkout requires `latest` or `version`"@,
        CommandError::RepoMembersNotConfigured => "repo members are not configured; add [repo].members to Sirno.toml"@,
        CommandError::MissingWitnessEntry(id) => "entry `"@ + id@ + "` does not exist"@,
        CommandError::Move(m) => crate::relocate::move_error_text(m@),
    }
}

impl CommandError {
    /// Human-readable description.
    pub fn message(&self) -> (r: String)
        ensures
            r@ == command_error_text(*self),
    {
        let mut out = String::new();
        match self {
            CommandError::UnconfiguredStructuralField(f) => {
                push_str(&mut out, "structural field `");
                push_str(&mut out, f.as_str());
                push_str(&mut out, "` is not configured; add [structural.");
                push_str(&mut out, f.as_str());
                push_str(&mut out, "] to Sirno.toml");
            },
            CommandError::Entry(p) => {
                return p.message();
            },
            CommandError::ArtifactPath(p) => {
                return p.message();
            },
            CommandError::ArtifactSourceHasNoFileName(p) => {
                push_str(&mut out, "artifact source has no file name: ");
                push_str(&mut out, p.as_str());
            },
            CommandError::FrostAlreadyConfigured(p) => {
                push_str(&mut out, "frost is already configured at ");
                push_str(&mut out, p.as_str());
            },
            CommandError::FrostNotConfigured => {
                push_str(&mut out, "frost is not configured; run `sirno frost init` first");
            },
            CommandError::ImmutableFrostCheckout(v) => {
                push_str(&mut out, "frost version ");
                crate::text::push_decimal_u64(&mut out, *v);
                push_str(&mut out, " is checked out immutably; use checkout --unsafe-mutable first");
            },
            CommandError::OpenTide { count, tutorial } => {
                push_str(&mut out, "tide has ");
                push_decimal(&mut out, *count);
                push_str(&mut out, " open workitems; run `sirno tide status`");
                let text = tutorial.to_string();
                push_str(&mut out, text.as_str());
            },
            CommandError::InvalidFrostVersion(v) => {
                push_str(&mut out, "frost version ");
                crate::text::push_decimal_u64(&mut out, *v);
                push_str(&mut out, " is not a check-outable snapshot");
            },
            CommandError::MissingFrostCheckoutTarget => {
                push_str(&mut out, "frost checkout requires `latest` or `version`");
            },
            CommandError::RepoMembersNotConfigured => {
                push_str(&mut out, "repo members are not configured; add [repo].members to Sirno.toml");
            },
            CommandError::MissingWitnessEntry(id) => {
                push_str(&mut out, "entry `");
                push_str(&mut out, id.as_str());
                push_str(&mut out, "` does not exist");
            },
            CommandError::Move(m) => {
                return m.message();
            },
        }
        out
    }
}

/// A context rooted at one config path, with an optional lake path override.
#[derive(Debug)]
pub struct CoreContext {
    config_path: String,
    lake_path: Option<String>,
}

impl CoreContext {
    /// Configured config path.
    pub closed spec fn spec_config_path(&self) -> Seq<char> {
        self.config_path@
    }

    /// Lake path override.
    pub closed spec fn spec_lake_path(&self) -> Option<Seq<char>> {
        match &self.lake_path {
            Some(p) => Some(p@),
            None => None,
        }
    }

    /// A context rooted at one config path.
    pub fn new(config_path: &str) -> (r: Self)
        ensures
            r.spec_config_path() == config_path@,
            r.spec_lake_path() is None,
    {
        CoreContext { config_path: owned(config_path), lake_path: None }
    }

    /// This context with the lake path overridden.
    pub fn with_lake_path(self, lake_path: &str) -> (r: Self)
        ensures
            r.spec_config_path() == self.spec_config_path(),
            r.spec_lake_path() == Some(lake_path@),
    {
        CoreContext { config_path: self.config_path, lake_path: Some(owned(lake_path)) }
    }

    /// The config path.
    pub fn config_path(&self) -> (r: &str)
        ensures
            r@ == self.spec_config_path(),
    {
        self.config_path.as_str()
    }

    /// The lake path override.
    pub fn lake_path(&self) -> (r: Option<&str>)
        ensures
            match r {
                Some(p) => self.spec_lake_path() == Some(p@),
                None => self.spec_lake_path() is None,
            },
    {
        match &self.lake_path {
            Some(p) => Some(p.as_str()),
            None => None,
        }
    }
}

/// One JSON-ready source span.
#[derive(Clone, Copy, Debug, PartialEq, Eq, Structural)]
pub struct WitnessSpanResult {
    /// One-based starting line.
    pub start_line: usize,
    /// One-based starting column.
    pub start_column: usize,
    /// One-based ending line.
    pub end_line: usize,
    /// One-based column after the span.
    pub end_column: usize,
}

impl WitnessSpanResult {
    /// The JSON-ready form of a span.
    pub fn from(value: WitnessSpan) -> (r: Self)
        ensures
            r.start_line == value.start_line && r.start_column == value.start_column && r.end_line
                == value.end_line && r.end_column == value.end_column,
    {
        WitnessSpanResult {
            start_line: value.start_line,
            start_column: value.start_column,
            end_line: value.end_line,
            end_column: value.end_column,
        }
    }
}

/// One JSON-ready witness record.
#[derive(Debug)]
pub struct WitnessRecordResult {
    /// Entry captured by the witness block.
    pub entry: String,
    /// Repository file path holding the witness.
    pub path: String,
    /// Full matched block region.
    pub region: WitnessSpanResult,
    /// Opening delimiter span.
    pub opening: WitnessSpanResult,
    /// Closing delimiter span.
    pub closing: WitnessSpanResult,
    /// Matched opening delimiter text.
    pub marker: String,
    /// Full witness body when requested.
    pub body: Option<String>,
}

/// The JSON-ready form of a witness record matches the record.
pub open spec fn record_result_matches(x: &WitnessRecordResult, r: &WitnessRecord, full: bool) -> bool {
    &&& x.entry@ == r.entry@
    &&& x.path@ == r.path@
    &&& x.region.start_line == r.region.start_line && x.region.start_column == r.region.start_column
        && x.region.end_line == r.region.end_line && x.region.end_column == r.region.end_column
    &&& x.opening.start_line == r.opening.start_line && x.opening.start_column
        == r.opening.start_column && x.opening.end_line == r.opening.end_line
        && x.opening.end_column == r.opening.end_column
    &&& x.closing.start_line == r.closing.start_line && x.closing.start_column
        == r.closing.start_column && x.closing.end_line == r.closing.end_line
        && x.closing.end_column == r.closing.end_column
    &&& x.marker@ == r.marker@
    &&& match &x.body {
        Some(b) => full && b@ == r.body@,
        None => !full,
    }
}

impl WitnessRecordResult {
    /// The JSON-ready form of a witness record; the body is kept only when `full`.
    pub fn from_record(record: &WitnessRecord, full: bool) -> (r: Self)
        ensures
            record_result_matches(&r, record, full),
    {
        WitnessRecordResult {
            entry: owned(record.entry.as_str()),
            path: owned(record.path.as_str()),
            region: WitnessSpanResult::from(record.region),
            opening: WitnessSpanResult::from(record.opening),
            closing: WitnessSpanResult::from(record.closing),
            marker: owned(record.marker.as_str()),
            body: if full {
                Some(owned(record.body.as_str()))
            } else {
                None
            },
        }
    }
}

/// Repository witness lookup result.
#[derive(Debug)]
pub struct WitnessResult {
    /// Whether any witness block was found.
    pub ok: bool,
    /// Entry used for lookup.
    pub id: String,
    /// Matching witness records.
    pub records: Vec<WitnessRecordResult>,
    /// Concise human-readable summary.
    pub message: String,
}

/// Summary of a witness lookup.
pub open spec fn witness_message(id: Seq<char>, count: nat) -> Seq<char> {
    if count == 0 {
        "no witness found for "@ + id
    } else {
        "found "@ + decimal(count) + " witness records for "@ + id
    }
}

impl CoreContext {
    /// The witness lookup result for the records found for one entry.
    pub fn entry_witness(&self, id: &EntryAddress, full: bool, records: &[WitnessRecord]) -> (r: WitnessResult)
        ensures
            r.ok == (records@.len() > 0),
            r.id@ == id@,
            r.records@.len() == records@.len(),
            forall|i: int| 0 <= i < records@.len() ==> record_result_matches(#[trigger] &r.records@[i], &records@[i], full),
            r.message@ == witness_message(id@, records@.len() as nat),
    {
        let mut out: Vec<WitnessRecordResult> = Vec::new();
        let mut i: usize = 0;
        while i < records.len()
            invariant
                i <= records@.len(),
                out@.len() == i,
                forall|k: int| 0 <= k < i ==> record_result_matches(#[trigger] &out@[k], &records@[k], full),
            decreases records@.len() - i,
        {
            out.push(WitnessRecordResult::from_record(&records[i], full));
            i = i + 1;
        }
        let mut message = String::new();
        if records.len() == 0 {
            push_str(&mut message, "no witness found for ");
            push_str(&mut message, id.as_str());
        } else {
            push_str(&mut message, "found ");
            push_decimal(&mut message, records.len());
            push_str(&mut message, " witness records for ");
            push_str(&mut message, id.as_str());
        }
        WitnessResult { ok: records.len() > 0, id: owned(id.as_str()), records: out, message }
    }
}

/// Lake initialization request.
#[derive(Debug)]
pub struct LakeInitRequest {
    /// Lake path written to the config.
    pub lake: Option<String>,
}

/// Result of creating a lake.
#[derive(Debug)]
pub struct LakeInitResult {
    /// Whether the command completed.
    pub ok: bool,
    /// Config file that was written.
    pub config_path: String,
    /// Lake directory that was initialized.
    pub lake_path: String,
    /// Number of seed entries written.
    pub entry_count: usize,
    /// Concise human-readable summary.
    pub message: String,
}

impl CoreContext {
    /// The lake path a new config names: the requested one, else the override, else the
    /// default.
    pub fn lake_init_path(&self, request: &LakeInitRequest, default_lake: &str) -> (r: String)
        ensures
            r@ == match &request.lake {
                Some(l) => l@,
                None => match self.spec_lake_path() {
                    Some(p) => p,
                    None => default_lake@,
                },
            },
    {
        match &request.lake {
            Some(l) => owned(l.as_str()),
            None => match &self.lake_path {
                Some(p) => owned(p.as_str()),
                None => owned(default_lake),
            },
        }
    }

    /// The result of initializing the lake at `lake_path` with `entry_count` seed entries.
    pub fn lake_init(&self, lake_path: &str, entry_count: usize) -> (r: LakeInitResult)
        ensures
            r.ok,
            r.config_path@ == self.spec_config_path(),
            r.lake_path@ == lake_path@,
            r.entry_count == entry_count,
            r.message@ == "initialized "@ + self.spec_config_path() + " with "@ + decimal(
                entry_count as nat,
            ) + " entries in "@ + lake_path@,
    {
        let mut message = String::new();
        push_str(&mut message, "initialized ");
        push_str(&mut message, self.config_path.as_str());
        push_str(&mut message, " with ");
        push_decimal(&mut message, entry_count);
        push_str(&mut message, " entries in ");
        push_str(&mut message, lake_path);
        LakeInitResult {
            ok: true,
            config_path: owned(self.config_path.as_str()),
            lake_path: owned(lake_path),
            entry_count,
            message,
        }
    }
}

/// Structural metadata target of a typed request.
#[derive(Debug)]
pub struct StructuralTarget {
    /// Structural field name.
    pub field: String,
    /// Target entry.
    pub target: EntryAddress,
}

/// Why a `FIELD=ENTRY_ID` argument is not a structural target.
#[derive(Debug)]
pub enum StructuralTargetParseError {
    /// The argument holds no `=`.
    MissingEquals,
    /// The field name before the first `=` is empty.
    EmptyField,
    /// The text after the first `=` is not an entry address.
    EntryId(crate::address::EntryAddressError),
}

impl StructuralTargetParseError {
    /// Human-readable description.
    pub fn message(&self) -> (r: String)
        ensures
            match self {
                StructuralTargetParseError::MissingEquals => r@ == "expected FIELD=ENTRY_ID"@,
                StructuralTargetParseError::EmptyField => r@ == "structural field name must not be empty"@,
                StructuralTargetParseError::EntryId(_) => r@ == "invalid entry address"@,
            },
    {
        match self {
            StructuralTargetParseError::MissingEquals => "expected FIELD=ENTRY_ID".to_string(),
            StructuralTargetParseError::EmptyField => "structural field name must not be empty".to_string(),
            StructuralTargetParseError::EntryId(_) => "invalid entry address".to_string(),
        }
    }
}

/// The outcome of parsing `FIELD=ENTRY_ID`: split at the first `=`; the field is what
/// precedes it, untrimmed, and the rest must be an entry address.
pub open spec fn structural_target_spec(raw: Seq<char>) -> Result<(Seq<char>, Seq<char>), StructuralTargetParseError> {
    let k = crate::query::first_index(raw, '=');
    if k < 0 {
        Err(StructuralTargetParseError::MissingEquals)
    } else if k == 0 {
        Err(StructuralTargetParseError::EmptyField)
    } else {
        let target = raw.subrange(k + 1, raw.len() as int);
        match crate::address::address_check(target) {
            Err(e) => Err(StructuralTargetParseError::EntryId(e)),
            Ok(()) => Ok((raw.subrange(0, k), target)),
        }
    }
}

impl StructuralTarget {
    /// Parse a `FIELD=ENTRY_ID` argument.
    pub fn from_str(raw: &str) -> (r: Result<Self, StructuralTargetParseError>)
        ensures
            match structural_target_spec(raw@) {
                Ok((f, t)) => r matches Ok(v) && v.field@ == f && v.target@ == t,
                Err(StructuralTargetParseError::EntryId(e)) => r matches Err(
                    StructuralTargetParseError::EntryId(x),
                ) && x == e,
                Err(StructuralTargetParseError::MissingEquals) => r matches Err(
                    StructuralTargetParseError::MissingEquals,
                ),
                Err(StructuralTargetParseError::EmptyField) => r matches Err(
                    StructuralTargetParseError::EmptyField,
                ),
            },
    {
        let chars = crate::text::chars_of(raw);
        let k = match crate::query::find_char(chars.as_slice(), '=') {
            Some(k) => k,
            None => {
                return Err(StructuralTargetParseError::MissingEquals);
            },
        };
        proof {
            crate::query::lemma_first_index(raw@, '=');
        }
        if k == 0 {
            return Err(StructuralTargetParseError::EmptyField);
        }
        let n = chars.len();
        let field = crate::text::string_from(crate::text::slice_range(chars.as_slice(), 0, k).as_slice());
        let target_text = crate::text::string_from(crate::text::slice_range(chars.as_slice(), k + 1, n).as_slice());
        match EntryAddress::new(target_text.as_str()) {
            Ok(target) => Ok(StructuralTarget { field, target }),
            Err(e) => {
                assert(Err::<(), crate::address::EntryAddressError>(e) == crate::address::address_check(target_text@));
                Err(StructuralTargetParseError::EntryId(e))
            },
        }
    }
}

/// Entry creation request.
#[derive(Debug)]
pub struct EntryNewRequest {
    /// Entry address and file name stem.
    pub id: EntryAddress,
    /// Human-readable entry name.
    pub name: Option<String>,
    /// Short entry description.
    pub desc: String,
    /// Structural metadata targets.
    pub structural: Vec<StructuralTarget>,
    /// Initial Markdown body.
    pub body: Option<String>,
}

/// Views of structural targets.
pub open spec fn targets_view(ts: Seq<StructuralTarget>) -> Seq<(Seq<char>, Seq<char>)> {
    ts.map_values(|t: StructuralTarget| (t.field@, t.target@))
}

/// Fields after adding each target to its field, in order.
pub open spec fn pushed_fields(s: Seq<FieldView>, ts: Seq<(Seq<char>, Seq<char>)>) -> Seq<FieldView>
    decreases ts.len(),
{
    if ts.len() == 0 {
        s
    } else {
        let acc = pushed_fields(s, ts.drop_last());
        let t = ts.last();
        set_field(acc, t.0, targets_of(acc, t.0).push(t.1))
    }
}

/// Index of the first target whose field is not configured, or the length.
pub open spec fn first_unconfigured(ts: Seq<(Seq<char>, Seq<char>)>, rs: Seq<(Seq<char>, Option<Seq<char>>)>) -> int
    decreases ts.len(),
{
    if ts.len() == 0 {
        0
    } else if !has_relation(rs, ts[0].0) {
        0
    } else {
        first_unconfigured(ts.drop_first(), rs) + 1
    }
}

/// The name of a new entry: the requested one, else one made from the address.
pub open spec fn new_entry_name(request: &EntryNewRequest) -> Seq<char> {
    match &request.name {
        Some(n) => n@,
        None => title_name(request.id@),
    }
}

/// The entry a creation request describes.
pub open spec fn new_entry_view(request: &EntryNewRequest) -> EntryView {
    EntryView {
        id: request.id@,
        metadata: MetadataView {
            name: new_entry_name(request),
            desc: request.desc@,
            meta: crate::entry::EntryMeta { frozen: None, tide: None, entry_type: None },
            structural: pushed_fields(Seq::empty(), targets_view(request.structural@)),
        },
        body: match &request.body {
            Some(b) => b@,
            None => Seq::empty(),
        },
    }
}

proof fn lemma_first_unconfigured(ts: Seq<(Seq<char>, Seq<char>)>, rs: Seq<(Seq<char>, Option<Seq<char>>)>)
    ensures
        0 <= first_unconfigured(ts, rs) <= ts.len(),
        forall|j: int| 0 <= j < first_unconfigured(ts, rs) ==> has_relation(rs, #[trigger] ts[j].0),
        first_unconfigured(ts, rs) < ts.len() ==> !has_relation(rs, ts[first_unconfigured(ts, rs)].0),
    decreases ts.len(),
{
    if ts.len() > 0 && has_relation(rs, ts[0].0) {
        lemma_first_unconfigured(ts.drop_first(), rs);
        assert forall|j: int| 1 <= j < ts.len() implies ts[j] == ts.drop_first()[j - 1] by {}
    }
}

proof fn lemma_first_unconfigured_at(ts: Seq<(Seq<char>, Seq<char>)>, rs: Seq<(Seq<char>, Option<Seq<char>>)>, k: int)
    requires
        0 <= k <= ts.len(),
        forall|j: int| 0 <= j < k ==> has_relation(rs, #[trigger] ts[j].0),
        k < ts.len() ==> !has_relation(rs, ts[k].0),
    ensures
        first_unconfigured(ts, rs) == k,
    decreases k,
{
    if k > 0 {
        assert(has_relation(rs, ts[0].0));
        assert forall|j: int| 0 <= j < k - 1 implies has_relation(rs, #[trigger] ts.drop_first()[j].0) by {
            assert(ts.drop_first()[j] == ts[j + 1]);
        }
        if k < ts.len() {
            assert(ts.drop_first()[k - 1] == ts[k]);
        }
        lemma_first_unconfigured_at(ts.drop_first(), rs, k - 1);
    }
}

impl CoreContext {
    /// The entry that a creation request describes: named as requested or after its address,
    /// with each structural target added to its field. Every field must be configured.
    pub fn entry_new(&self, request: &EntryNewRequest, structural: &StructuralSettings) -> (r: Result<Entry, CommandError>)
        ensures
            ({
                let ts = targets_view(request.structural@);
                let k = first_unconfigured(ts, structural@);
                if k < ts.len() {
                    r matches Err(CommandError::UnconfiguredStructuralField(f)) && f@ == ts[k].0
                } else if !is_plain(new_entry_name(request)) || !is_plain(request.desc@) {
                    r matches Err(CommandError::Entry(_))
                } else {
                    r matches Ok(e) && e@ == new_entry_view(request)
                }
            }),
    {
        let ghost ts = targets_view(request.structural@);
        proof {
            lemma_first_unconfigured(ts, structural@);
        }
        let mut i: usize = 0;
        while i < request.structural.len()
            invariant
                i <= ts.len(),
                ts == targets_view(request.structural@),
                forall|j: int| 0 <= j < i ==> has_relation(structural@, #[trigger] ts[j].0),
            decreases ts.len() - i,
        {
            if !structural.contains_field(request.structural[i].field.as_str()) {
                proof {
                    lemma_first_unconfigured_at(ts, structural@, i as int);
                }
                return Err(
                    CommandError::UnconfiguredStructuralField(
                        owned(request.structural[i].field.as_str()),
                    ),
                );
            }
            i = i + 1;
        }
        proof {
            lemma_first_unconfigured_at(ts, structural@, ts.len() as int);
        }
        let name = match &request.name {
            Some(n) => owned(n.as_str()),
            None => crate::report::title_name_from_id(&request.id),
        };
        let mut metadata = match EntryMetadata::new(name.as_str(), request.desc.as_str()) {
            Ok(m) => m,
            Err(e) => {
                return Err(CommandError::Entry(e));
            },
        };
        let mut k: usize = 0;
        assert(ts.take(0) =~= Seq::<(Seq<char>, Seq<char>)>::empty());
        while k < request.structural.len()
            invariant
                k <= ts.len(),
                ts == targets_view(request.structural@),
                metadata@.name == new_entry_name(request),
                metadata@.desc == request.desc@,
                metadata@.meta == (crate::entry::EntryMeta { frozen: None, tide: None, entry_type: None }),
                metadata@.structural == pushed_fields(Seq::empty(), ts.take(k as int)),
            decreases ts.len() - k,
        {
            assert(ts.take(k + 1).drop_last() =~= ts.take(k as int));
            assert(ts.take(k + 1).last() == ts[k as int]);
            metadata.push_structural_target(
                request.structural[k].field.as_str(),
                request.structural[k].target.clone(),
            );
            k = k + 1;
        }
        assert(ts.take(k as int) =~= ts);
        let body = match &request.body {
            Some(b) => owned(b.as_str()),
            None => String::new(),
        };
        Ok(Entry::new(request.id.clone(), metadata, body.as_str()))
    }
}

/// Result that points at one entry file.
#[derive(Debug)]
pub struct EntryPathResult {
    /// Whether the command completed.
    pub ok: bool,
    /// Entry affected by the command.
    pub id: String,
    /// Entry path affected by the command.
    pub path: String,
    /// Concise human-readable summary.
    pub message: String,
}

impl EntryPathResult {
    /// The result of creating the entry at `path`.
    pub fn created(id: &EntryAddress, path: &str) -> (r: Self)
        ensures
            r.ok && r.id@ == id@ && r.path@ == path@ && r.message@ == "created "@ + path@,
    {
        let mut message = String::new();
        push_str(&mut message, "created ");
        push_str(&mut message, path);
        EntryPathResult { ok: true, id: owned(id.as_str()), path: owned(path), message }
    }
}

impl CoreContext {
    /// The result of freezing entry `id`, whose file is at `path`.
    pub fn entry_freeze(&self, id: &EntryAddress, path: &str) -> (r: EntryPathResult)
        ensures
            r.ok && r.id@ == id@ && r.path@ == path@ && r.message@ == "froze entry "@ + id@ + " at "@
                + path@,
    {
        let mut message = String::new();
        push_str(&mut message, "froze entry ");
        push_str(&mut message, id.as_str());
        push_str(&mut message, " at ");
        push_str(&mut message, path);
        EntryPathResult { ok: true, id: owned(id.as_str()), path: owned(path), message }
    }

    /// The result of melting entry `id`, whose file is at `path`.
    pub fn entry_melt(&self, id: &EntryAddress, path: &str) -> (r: EntryPathResult)
        ensures
            r.ok && r.id@ == id@ && r.path@ == path@ && r.message@ == "melted entry "@ + id@
                + " at "@ + path@,
    {
        let mut message = String::new();
        push_str(&mut message, "melted entry ");
        push_str(&mut message, id.as_str());
        push_str(&mut message, " at ");
        push_str(&mut message, path);
        EntryPathResult { ok: true, id: owned(id.as_str()), path: owned(path), message }
    }
}

/// Result of checking or fixing config comments.
#[derive(Debug)]
pub struct ConfigCommentResult {
    /// Whether no comment is missing, or the file was rewritten.
    pub ok: bool,
    /// Whether the config file is to be rewritten with its canonical text.
    pub changed: bool,
    /// Config file.
    pub config_path: String,
    /// Missing comment texts, in canonical order.
    pub missing_comments: Vec<String>,
    /// Concise human-readable summary.
    pub message: String,
}

/// Summary of a config comment check.
pub open spec fn comments_message(path: Seq<char>, missing: nat, fix: bool) -> Seq<char> {
    if missing == 0 {
        "config comments ok in "@ + path
    } else if fix {
        "updated config comments in "@ + path + " ("@ + decimal(missing) + " missing)"@
    } else {
        "config comments missing in "@ + path + " ("@ + decimal(missing)
            + " missing); run `sirno util config --fix`"@
    }
}

impl CoreContext {
    fn config_comments(&self, config: &SirnoConfig, source: &str, fix: bool) -> (r: ConfigCommentResult)
        ensures
            ({
                let missing = missing_comments(comment_texts(lines_of(config_text(config))), trimmed_lines(lines_of(source@)));
                &&& strings_view(r.missing_comments@) == missing
                &&& r.changed == (fix && missing.len() > 0)
                &&& r.ok == (missing.len() == 0 || fix)
                &&& r.config_path@ == self.spec_config_path()
                &&& r.message@ == comments_message(self.spec_config_path(), missing.len(), fix)
            }),
    {
        let missing = config.missing_comments_in(source);
        let count = missing.len();
        let mut message = String::new();
        if count == 0 {
            push_str(&mut message, "config comments ok in ");
            push_str(&mut message, self.config_path.as_str());
        } else if fix {
            push_str(&mut message, "updated config comments in ");
            push_str(&mut message, self.config_path.as_str());
            push_str(&mut message, " (");
            push_decimal(&mut message, count);
            push_str(&mut message, " missing)");
        } else {
            push_str(&mut message, "config comments missing in ");
            push_str(&mut message, self.config_path.as_str());
            push_str(&mut message, " (");
            push_decimal(&mut message, count);
            push_str(&mut message, " missing); run `sirno util config --fix`");
        }
        ConfigCommentResult {
            ok: count == 0 || fix,
            changed: fix && count > 0,
            config_path: owned(self.config_path.as_str()),
            missing_comments: missing,
            message,
        }
    }

    /// Check whether the config source holds every canonical comment.
    pub fn config_comments_check(&self, config: &SirnoConfig, source: &str) -> (r: ConfigCommentResult)
        ensures
            ({
                let missing = missing_comments(comment_texts(lines_of(config_text(config))), trimmed_lines(lines_of(source@)));
                &&& strings_view(r.missing_comments@) == missing
                &&& !r.changed
                &&& r.ok == (missing.len() == 0)
                &&& r.config_path@ == self.spec_config_path()
                &&& r.message@ == comments_message(self.spec_config_path(), missing.len(), false)
            }),
    {
        self.config_comments(config, source, false)
    }

    /// Decide whether the config is to be rewritten with its canonical text: it is when a
    /// comment is missing.
    pub fn config_comments_fix(&self, config: &SirnoConfig, source: &str) -> (r: ConfigCommentResult)
        ensures
            ({
                let missing = missing_comments(comment_texts(lines_of(config_text(config))), trimmed_lines(lines_of(source@)));
                &&& strings_view(r.missing_comments@) == missing
                &&& r.changed == (missing.len() > 0)
                &&& r.ok
                &&& r.config_path@ == self.spec_config_path()
                &&& r.message@ == comments_message(self.spec_config_path(), missing.len(), true)
            }),
    {
        self.config_comments(config, source, true)
    }
}

/// Artifact listing result.
#[derive(Debug)]
pub struct ArtifactListResult {
    /// Whether the command completed.
    pub ok: bool,
    /// Entry whose artifacts were listed.
    pub id: String,
    /// Owner-relative artifact paths.
    pub artifacts: Vec<String>,
}

impl CoreContext {
    /// The listing of the artifacts of entry `id`.
    pub fn entry_artifact_list(&self, id: &EntryAddress, artifacts: &[EntryArtifactPath]) -> (r: ArtifactListResult)
        ensures
            r.ok,
            r.id@ == id@,
            strings_view(r.artifacts@) == artifacts@.map_values(|a: EntryArtifactPath| a@),
    {
        let mut out: Vec<String> = Vec::new();
        let mut i: usize = 0;
        while i < artifacts.len()
            invariant
                i <= artifacts@.len(),
                strings_view(out@) == artifacts@.map_values(|a: EntryArtifactPath| a@).take(i as int),
            decreases artifacts@.len() - i,
        {
            let ghost prev = out@;
            out.push(owned(artifacts[i].as_str()));
            assert(strings_view(out@) =~= strings_view(prev).push(artifacts@[i as int]@));
            assert(strings_view(out@) =~= artifacts@.map_values(|a: EntryArtifactPath| a@).take(i + 1));
            i = i + 1;
        }
        assert(artifacts@.map_values(|a: EntryArtifactPath| a@).take(i as int) =~= artifacts@.map_values(|a: EntryArtifactPath| a@));
        ArtifactListResult { ok: true, id: owned(id.as_str()), artifacts: out }
    }
}

/// The file name of a path: its last normal component, unless that is `..` or there is none.
pub open spec fn file_name(p: Seq<char>) -> Option<Seq<char>> {
    let np = normal_parts(split_on(p, '/'));
    if np.len() == 0 || np.last() == parent_dir() {
        None
    } else {
        Some(np.last())
    }
}

/// Artifact add request.
#[derive(Debug)]
pub struct ArtifactAddRequest {
    /// Entry that will own the artifact.
    pub id: EntryAddress,
    /// Source file to copy.
    pub source: String,
    /// Owner-relative artifact path.
    pub artifact_path: Option<String>,
}

/// Artifact rename request.
#[derive(Debug)]
pub struct ArtifactRenameRequest {
    /// Entry that owns the artifact.
    pub id: EntryAddress,
    /// Existing owner-relative artifact path.
    pub old_path: String,
    /// New owner-relative artifact path.
    pub new_path: String,
}

/// Artifact removal request.
#[derive(Debug)]
pub struct ArtifactRemoveRequest {
    /// Entry that owns the artifact.
    pub id: EntryAddress,
    /// Owner-relative artifact path to remove.
    pub artifact_path: String,
}

/// Result of changing one artifact file.
#[derive(Debug)]
pub struct ArtifactChangeResult {
    /// Whether the command completed.
    pub ok: bool,
    /// Entry that owns the artifact.
    pub id: String,
    /// Owner-relative artifact path.
    pub artifact_path: String,
    /// File-system path affected by the command.
    pub path: String,
    /// Concise human-readable summary.
    pub message: String,
}

/// The artifact path of a source file: its file name, checked as an artifact path.
pub fn default_artifact_path_from_source(source: &str) -> (r: Result<EntryArtifactPath, CommandError>)
    ensures
        file_name(source@) is None ==> (r matches Err(CommandError::ArtifactSourceHasNoFileName(s)) && s@ == source@),
        file_name(source@) matches Some(n) ==> match artifact_path_outcome(n) {
            Some(t) => r matches Ok(a) && a@ == t,
            None => r matches Err(CommandError::ArtifactPath(_)),
        },
{
    let chars = crate::text::chars_of(source);
    let parts = crate::text::split_slice(chars.as_slice(), '/');
    let ghost ps = split_on(source@, '/');
    let mut last: Option<usize> = None;
    let mut i: usize = 0;
    assert(ps.take(0) =~= Seq::<Seq<char>>::empty());
    while i < parts.len()
        invariant
            i <= ps.len(),
            parts@.map_values(|p: Vec<char>| p@) == ps,
            ps == split_on(source@, '/'),
            match last {
                Some(k) => k < i && normal_parts(ps.take(i as int)).len() > 0 && normal_parts(ps.take(i as int)).last() == ps[k as int],
                None => normal_parts(ps.take(i as int)).len() == 0,
            },
        decreases ps.len() - i,
    {
        assert(ps.take(i + 1).drop_last() =~= ps.take(i as int));
        assert(ps.take(i + 1).last() == parts@[i as int]@);
        let is_dot = parts[i].len() == 1 && parts[i][0] == '.';
        assert(is_dot == (parts@[i as int]@ == crate::artifact::cur_dir())) by {
            if parts@[i as int]@ == crate::artifact::cur_dir() {
                assert(parts@[i as int]@[0] == '.');
            }
            if is_dot {
                assert(parts@[i as int]@ =~= crate::artifact::cur_dir());
            }
        }
        if parts[i].len() > 0 && !is_dot {
            last = Some(i);
        }
        i = i + 1;
    }
    assert(ps.take(i as int) =~= ps);
    match last {
        None => Err(CommandError::ArtifactSourceHasNoFileName(owned(source))),
        Some(k) => {
            let part = &parts[k];
            assert(part@ == ps[k as int]);
            if part.len() == 2 && part[0] == '.' && part[1] == '.' {
                assert(part@ =~= parent_dir());
                return Err(CommandError::ArtifactSourceHasNoFileName(owned(source)));
            }
            assert(part@ != parent_dir()) by {
                if part@ == parent_dir() {
                    assert(part@[0] == '.' && part@[1] == '.');
                }
            }
            let name = crate::text::string_from(part.as_slice());
            match EntryArtifactPath::new(name.as_str()) {
                Ok(a) => Ok(a),
                Err(e) => Err(CommandError::ArtifactPath(e)),
            }
        },
    }
}

/// An artifact path given on the command line.
pub fn artifact_path_from_cli(path: &str) -> (r: Result<EntryArtifactPath, CommandError>)
    ensures
        match artifact_path_outcome(path@) {
            Some(t) => r matches Ok(a) && a@ == t,
            None => r matches Err(CommandError::ArtifactPath(_)),
        },
{
    match EntryArtifactPath::new(path) {
        Ok(a) => Ok(a),
        Err(e) => Err(CommandError::ArtifactPath(e)),
    }
}

impl CoreContext {
    /// The artifact path that an add request names: the given one, or the source's file name.
    pub fn entry_artifact_add_path(&self, request: &ArtifactAddRequest) -> (r: Result<EntryArtifactPath, CommandError>)
        ensures
            match &request.artifact_path {
                Some(p) => match artifact_path_outcome(p@) {
                    Some(t) => r matches Ok(a) && a@ == t,
                    None => r matches Err(CommandError::ArtifactPath(_)),
                },
                None => match file_name(request.source@) {
                    None => r matches Err(CommandError::ArtifactSourceHasNoFileName(_)),
                    Some(n) => match artifact_path_outcome(n) {
                        Some(t) => r matches Ok(a) && a@ == t,
                        None => r matches Err(CommandError::ArtifactPath(_)),
                    },
                },
            },
    {
        match &request.artifact_path {
            Some(p) => artifact_path_from_cli(p.as_str()),
            None => default_artifact_path_from_source(request.source.as_str()),
        }
    }

    /// The result of adding artifact `artifact_path` of entry `id` at `path`.
    pub fn entry_artifact_add(&self, id: &EntryAddress, artifact_path: &EntryArtifactPath, path: &str) -> (r: ArtifactChangeResult)
        ensures
            r.ok && r.id@ == id@ && r.artifact_path@ == artifact_path@ && r.path@ == path@,
            r.message@ == "added artifact "@ + artifact_path@ + " at "@ + path@,
    {
        let mut message = String::new();
        push_str(&mut message, "added artifact ");
        push_str(&mut message, artifact_path.as_str());
        push_str(&mut message, " at ");
        push_str(&mut message, path);
        ArtifactChangeResult {
            ok: true,
            id: owned(id.as_str()),
            artifact_path: owned(artifact_path.as_str()),
            path: owned(path),
            message,
        }
    }

    /// The result of renaming artifact `old_path` of entry `id` to `new_path`, now at `path`.
    pub fn entry_artifact_rename(
        &self,
        id: &EntryAddress,
        old_path: &EntryArtifactPath,
        new_path: &EntryArtifactPath,
        path: &str,
    ) -> (r: ArtifactChangeResult)
        ensures
            r.ok && r.id@ == id@ && r.artifact_path@ == new_path@ && r.path@ == path@,
            r.message@ == "renamed artifact "@ + old_path@ + " to "@ + new_path@ + " at "@ + path@,
    {
        let mut message = String::new();
        push_str(&mut message, "renamed artifact ");
        push_str(&mut message, old_path.as_str());
        push_str(&mut message, " to ");
        push_str(&mut message, new_path.as_str());
        push_str(&mut message, " at ");
        push_str(&mut message, path);
        ArtifactChangeResult {
            ok: true,
            id: owned(id.as_str()),
            artifact_path: owned(new_path.as_str()),
            path: owned(path),
            message,
        }
    }

    /// The result of removing artifact `artifact_path` of entry `id`, which was at `path`.
    pub fn entry_artifact_remove(&self, id: &EntryAddress, artifact_path: &EntryArtifactPath, path: &str) -> (r: ArtifactChangeResult)
        ensures
            r.ok && r.id@ == id@ && r.artifact_path@ == artifact_path@ && r.path@ == path@,
            r.message@ == "removed artifact "@ + artifact_path@ + " at "@ + path@,
    {
        let mut message = String::new();
        push_str(&mut message, "removed artifact ");
        push_str(&mut message, artifact_path.as_str());
        push_str(&mut message, " at ");
        push_str(&mut message, path);
        ArtifactChangeResult {
            ok: true,
            id: owned(id.as_str()),
            artifact_path: owned(artifact_path.as_str()),
            path: owned(path),
            message,
        }
    }
}

/// Result of moving a configured repository path.
#[derive(Debug)]
pub struct MovePathResult {
    /// Whether the command completed.
    pub ok: bool,
    /// Whether the file-system path actually moved.
    pub moved: bool,
    /// Previous configured path.
    pub old_path: String,
    /// New configured path.
    pub new_path: String,
    /// Concise human-readable summary.
    pub message: String,
}

impl CoreContext {
    /// The result of moving the lake from `old_path` to `new_path`, given the outcome of the
    /// move plan ([`crate::relocate::PathMove`]): its error, such as an existing destination,
    /// is the command's error.
    pub fn lake_move(
        &self,
        outcome: Result<bool, crate::relocate::PathMoveError>,
        old_path: &str,
        new_path: &str,
    ) -> (r: Result<MovePathResult, CommandError>)
        ensures
            outcome is Err <==> r is Err,
            outcome matches Err(e) ==> (r matches Err(CommandError::Move(x)) && x@ == e@),
            outcome matches Ok(moved) ==> (r matches Ok(m) && m.ok && m.moved == moved && m.old_path@
                == old_path@ && m.new_path@ == new_path@ && m.message@ == "moved lake "@ + old_path@
                + " to "@ + new_path@),
    {
        let moved = match outcome {
            Ok(moved) => moved,
            Err(e) => {
                return Err(CommandError::Move(e));
            },
        };
        let mut message = String::new();
        push_str(&mut message, "moved lake ");
        push_str(&mut message, old_path);
        push_str(&mut message, " to ");
        push_str(&mut message, new_path);
        Ok(MovePathResult { ok: true, moved, old_path: owned(old_path), new_path: owned(new_path), message })
    }
}

/// Entry path lookup request.
#[derive(Debug)]
pub struct EntryPathRequest {
    /// Entry whose paths are returned.
    pub id: EntryAddress,
    /// Selected path classes.
    pub selection: crate::report::PathSelection,
    /// Whether returned paths are absolute.
    pub absolute: bool,
}

impl EntryPathRequest {
    /// A path lookup request from typed fields.
    pub fn new(id: EntryAddress, selection: crate::report::PathSelection, absolute: bool) -> (r: Self)
        ensures
            r.id@ == id@ && r.selection == selection && r.absolute == absolute,
    {
        EntryPathRequest { id, selection, absolute }
    }
}

/// Kinds and paths of an entry path lookup, in reporting order.
pub open spec fn entry_path_rows(
    selection: crate::report::PathSelection,
    entry: Seq<char>,
    artifact_root: Seq<char>,
    artifacts: Seq<Seq<char>>,
    frost: Option<Seq<char>>,
) -> Seq<(Seq<char>, Seq<char>)> {
    (if selection.entry {
        seq![("entry"@, entry)]
    } else {
        Seq::empty()
    }) + (if selection.artifact {
        seq![("artifact-root"@, artifact_root)] + artifacts.map_values(|p: Seq<char>| ("artifact"@, p))
    } else {
        Seq::empty()
    }) + (if selection.frost && frost is Some {
        seq![("frost-entry"@, frost->0)]
    } else {
        Seq::empty()
    })
}

/// Views of path records.
pub open spec fn records_view(rs: Seq<crate::report::PathRecord>) -> Seq<(Seq<char>, Seq<char>)> {
    rs.map_values(|r: crate::report::PathRecord| (r.kind@, r.path@))
}

impl CoreContext {
    /// The path records of a lookup: the entry file, the artifact root and files, and the frost
    /// copy, each when selected (the frost copy only when a frost path is configured).
    pub fn entry_paths(
        &self,
        request: &EntryPathRequest,
        entry: &str,
        artifact_root: &str,
        artifacts: &[String],
        frost: Option<&str>,
    ) -> (r: Vec<crate::report::PathRecord>)
        ensures
            records_view(r@) == entry_path_rows(
                request.selection,
                entry@,
                artifact_root@,
                strings_view(artifacts@),
                match frost {
                    Some(f) => Some(f@),
                    None => None,
                },
            ),
    {
        let mut out: Vec<crate::report::PathRecord> = Vec::new();
        let ghost a = artifacts@.map_values(|p: String| p@);
        assert(records_view(out@) =~= Seq::<(Seq<char>, Seq<char>)>::empty());
        if request.selection.entry {
            out.push(crate::report::PathRecord::new("entry", entry));
        }
        let ghost e = records_view(out@);
        assert(e =~= if request.selection.entry {
            seq![("entry"@, entry@)]
        } else {
            Seq::empty()
        });
        if request.selection.artifact {
            out.push(crate::report::PathRecord::new("artifact-root", artifact_root));
            let ghost head = records_view(out@);
            let mut i: usize = 0;
            assert(head + Seq::<(Seq<char>, Seq<char>)>::empty() =~= head);
            while i < artifacts.len()
                invariant
                    i <= artifacts@.len(),
                    records_view(out@) == head + strings_view(artifacts@).take(i as int).map_values(
                        |p: Seq<char>| ("artifact"@, p),
                    ),
                decreases artifacts@.len() - i,
            {
                let ghost prev = out@;
                out.push(crate::report::PathRecord::new("artifact", artifacts[i].as_str()));
                assert(records_view(out@) =~= records_view(prev).push(("artifact"@, artifacts@[i as int]@)));
                assert(strings_view(artifacts@).take(i + 1) =~= strings_view(artifacts@).take(i as int).push(artifacts@[i as int]@));
                assert(records_view(out@) =~= head + strings_view(artifacts@).take(i + 1).map_values(
                    |p: Seq<char>| ("artifact"@, p),
                ));
                i = i + 1;
            }
            assert(strings_view(artifacts@).take(i as int) =~= strings_view(artifacts@));
        }
        let ghost art = if request.selection.artifact {
            seq![("artifact-root"@, artifact_root@)] + strings_view(artifacts@).map_values(|p: Seq<char>| ("artifact"@, p))
        } else {
            Seq::<(Seq<char>, Seq<char>)>::empty()
        };
        assert(records_view(out@) =~= e + art);
        let ghost f = records_view(out@);
        match frost {
            Some(p) => {
                if request.selection.frost {
                    out.push(crate::report::PathRecord::new("frost-entry", p));
                    assert(records_view(out@) =~= f + seq![("frost-entry"@, p@)]);
                } else {
                    assert(records_view(out@) =~= f + Seq::<(Seq<char>, Seq<char>)>::empty());
                }
            },
            None => {
                assert(records_view(out@) =~= f + Seq::<(Seq<char>, Seq<char>)>::empty());
            },
        }
        out
    }
}

/// Query rows together with the selected column order.
#[derive(Debug)]
pub struct QueryResults {
    columns: QueryColumns,
    rows: Vec<Vec<String>>,
}

impl QueryResults {
    /// Selected columns.
    pub closed spec fn spec_columns(&self) -> Seq<crate::query::QueryColumn> {
        self.columns@
    }

    /// Row values in column order.
    pub closed spec fn spec_rows(&self) -> Seq<Seq<Seq<char>>> {
        crate::table::rows_view(self.rows@)
    }

    /// Query results from columns and rows.
    pub fn new(columns: QueryColumns, rows: Vec<Vec<String>>) -> (r: Self)
        ensures
            r.spec_columns() == columns@,
            r.spec_rows() == crate::table::rows_view(rows@),
    {
        QueryResults { columns, rows }
    }

    /// Selected columns in display order.
    pub fn columns(&self) -> (r: &QueryColumns)
        ensures
            r@ == self.spec_columns(),
    {
        &self.columns
    }

    /// Row values in column order.
    pub fn rows(&self) -> (r: &[Vec<String>])
        ensures
            crate::table::rows_view(r@) == self.spec_rows(),
    {
        self.rows.as_slice()
    }
}

/// The value of one query column for an entry found at `path`.
pub open spec fn column_value(e: EntryView, path: Seq<char>, c: crate::query::QueryColumn) -> Seq<char> {
    match c {
        crate::query::QueryColumn::Id => e.id,
        crate::query::QueryColumn::Name => e.metadata.name,
        crate::query::QueryColumn::Path => path,
        crate::query::QueryColumn::Desc => e.metadata.desc,
    }
}

/// The value of one query column for an entry found at `path`.
pub fn format_query_column(entry: &Entry, path: &str, column: crate::query::QueryColumn) -> (r: String)
    ensures
        r@ == column_value(entry@, path@, column),
{
    match column {
        crate::query::QueryColumn::Id => owned(entry.id.as_str()),
        crate::query::QueryColumn::Name => owned(entry.metadata.name.as_str()),
        crate::query::QueryColumn::Path => owned(path),
        crate::query::QueryColumn::Desc => owned(entry.metadata.desc.as_str()),
    }
}

/// The row of one entry: its value in each column, in column order.
pub open spec fn query_row(e: EntryView, path: Seq<char>, cs: Seq<crate::query::QueryColumn>) -> Seq<Seq<char>> {
    cs.map_values(|c: crate::query::QueryColumn| column_value(e, path, c))
}

/// The rows of matched entries, each entry with the path where it was found.
pub fn query_result_rows(entries: &[(&Entry, String)], columns: &QueryColumns) -> (r: Vec<Vec<String>>)
    ensures
        r@.len() == entries@.len(),
        forall|i: int| 0 <= i < entries@.len() ==> strings_view(#[trigger] r@[i]@) == query_row(
            entries@[i].0@,
            entries@[i].1@,
            columns@,
        ),
{
    let cs = columns.columns();
    let mut rows: Vec<Vec<String>> = Vec::new();
    let mut i: usize = 0;
    while i < entries.len()
        invariant
            i <= entries@.len(),
            rows@.len() == i,
            cs@ == columns@,
            forall|k: int| 0 <= k < i ==> strings_view(#[trigger] rows@[k]@) == query_row(
                entries@[k].0@,
                entries@[k].1@,
                columns@,
            ),
        decreases entries@.len() - i,
    {
        let (entry, path) = &entries[i];
        let mut row: Vec<String> = Vec::new();
        let mut j: usize = 0;
        while j < cs.len()
            invariant
                j <= cs@.len(),
                cs@ == columns@,
                strings_view(row@) == query_row(entry@, path@, cs@).take(j as int),
            decreases cs@.len() - j,
        {
            let ghost before = strings_view(row@);
            row.push(format_query_column(entry, path.as_str(), cs[j]));
            assert(strings_view(row@) =~= before.push(column_value(entry@, path@, cs@[j as int])));
            assert(strings_view(row@) =~= query_row(entry@, path@, cs@).take(j + 1));
            j = j + 1;
        }
        assert(query_row(entry@, path@, cs@).take(j as int) =~= query_row(entry@, path@, cs@));
        rows.push(row);
        i = i + 1;
    }
    rows
}

/// One record: each column label with the row's value, as far as both go.
pub open spec fn query_record(cs: Seq<crate::query::QueryColumn>, row: Seq<Seq<char>>) -> Seq<(Seq<char>, Seq<char>)> {
    let n = if cs.len() < row.len() { cs.len() } else { row.len() };
    Seq::new(n, |k: int| (crate::query::column_label(cs[k]), row[k]))
}

/// Views of records.
pub open spec fn records_pairs_view(r: Seq<Vec<(String, String)>>) -> Seq<Seq<(Seq<char>, Seq<char>)>> {
    r.map_values(|rec: Vec<(String, String)>| rec@.map_values(|p: (String, String)| (p.0@, p.1@)))
}

/// Records keyed by column label, one per row.
pub fn query_result_records(columns: &QueryColumns, rows: &[Vec<String>]) -> (r: Vec<Vec<(String, String)>>)
    ensures
        records_pairs_view(r@) == crate::table::rows_view(rows@).map_values(
            |row: Seq<Seq<char>>| query_record(columns@, row),
        ),
{
    let cs = columns.columns();
    let ghost rv = crate::table::rows_view(rows@);
    let mut out: Vec<Vec<(String, String)>> = Vec::new();
    let mut i: usize = 0;
    while i < rows.len()
        invariant
            i <= rows@.len(),
            cs@ == columns@,
            rv == crate::table::rows_view(rows@),
            records_pairs_view(out@) == rv.map_values(|row: Seq<Seq<char>>| query_record(columns@, row)).take(i as int),
        decreases rows@.len() - i,
    {
        let row = &rows[i];
        assert(rv[i as int] == strings_view(row@));
        let n: usize = if cs.len() < row.len() { cs.len() } else { row.len() };
        let mut record: Vec<(String, String)> = Vec::new();
        let mut k: usize = 0;
        while k < n
            invariant
                k <= n,
                n == if cs@.len() < row@.len() { cs@.len() } else { row@.len() },
                cs@ == columns@,
                record@.map_values(|p: (String, String)| (p.0@, p.1@)) == query_record(cs@, strings_view(row@)).take(k as int),
            decreases n - k,
        {
            let ghost before = record@.map_values(|p: (String, String)| (p.0@, p.1@));
            record.push((owned(cs[k].label()), owned(row[k].as_str())));
            assert(record@.map_values(|p: (String, String)| (p.0@, p.1@)) =~= before.push(
                (crate::query::column_label(cs@[k as int]), row@[k as int]@),
            ));
            assert(record@.map_values(|p: (String, String)| (p.0@, p.1@)) =~= query_record(cs@, strings_view(row@)).take(k + 1));
            k = k + 1;
        }
        assert(query_record(cs@, strings_view(row@)).take(k as int) =~= query_record(cs@, strings_view(row@)));
        let ghost before_out = records_pairs_view(out@);
        out.push(record);
        assert(records_pairs_view(out@) =~= before_out.push(query_record(columns@, rv[i as int])));
        assert(records_pairs_view(out@) =~= rv.map_values(|row: Seq<Seq<char>>| query_record(columns@, row)).take(i + 1));
        i = i + 1;
    }
    assert(rv.map_values(|row: Seq<Seq<char>>| query_record(columns@, row)).take(i as int) =~= rv.map_values(
        |row: Seq<Seq<char>>| query_record(columns@, row),
    ));
    out
}

impl QueryResults {
    /// Records keyed by column label, one per row.
    pub fn records(&self) -> (r: Vec<Vec<(String, String)>>)
        ensures
            records_pairs_view(r@) == self.spec_rows().map_values(
                |row: Seq<Seq<char>>| query_record(self.spec_columns(), row),
            ),
    {
        query_result_records(&self.columns, self.rows.as_slice())
    }
}


/// The entries held by entry files.
pub open spec fn file_entries(fs: Seq<(String, Entry)>) -> Seq<EntryView> {
    fs.map_values(|f: (String, Entry)| f.1@)
}

impl CoreContext {
    /// Check the entries of the lake at `root`, each read from the file at its path, in
    /// `mode`, against the metadata fields of `meta`; the result lists the printable
    /// diagnostics in check order, each with the file of its entry.
    pub fn lake_check(
        &self,
        root: &str,
        files: &[(String, Entry)],
        meta: &crate::meta::MetaRegistry,
        mode: crate::check::CheckMode,
    ) -> (r: crate::output::LakeCheckResult)
        ensures
            ({
                let ds = crate::check::check_spec(file_entries(files@), meta.spec_structural(), mode);
                &&& r.root@ == root@
                &&& r.has_errors == crate::check::any_error(ds)
                &&& r.ok == !crate::check::any_error(ds)
                &&& r.diagnostics@.map_values(|d: crate::output::DiagnosticRecord| crate::output::record_view(d))
                    == crate::output::check_records(ds, crate::output::files_view(files@))
            }),
    {
        let mut entries: Vec<&Entry> = Vec::new();
        let mut i: usize = 0;
        while i < files.len()
            invariant
                i <= files@.len(),
                crate::check::entries_view(entries@) == file_entries(files@).take(i as int),
            decreases files@.len() - i,
        {
            let ghost before = entries@;
            entries.push(&files[i].1);
            assert(crate::check::entries_view(entries@) =~= crate::check::entries_view(before).push(files@[i as int].1@));
            assert(file_entries(files@).take(i + 1) =~= file_entries(files@).take(i as int).push(files@[i as int].1@));
            i = i + 1;
        }
        assert(file_entries(files@).take(files@.len() as int) =~= file_entries(files@));
        let report = mode.check_entries(entries.as_slice(), meta);
        let records = crate::output::diagnostic_records(&report, files);
        crate::output::LakeCheckResult::from_diagnostics(root, report.has_errors(), records)
    }
}


/// Result of reading or changing the working directory.
#[derive(Debug)]
pub struct CwdResult {
    /// Always true for a result that was produced.
    pub ok: bool,
    /// Whether the working directory was changed.
    pub changed: bool,
    /// The working directory after the command.
    pub path: String,
    /// Concise human-readable summary.
    pub message: String,
}

impl CoreContext {
    /// The result of a working-directory command that left the process in `path`, having
    /// changed to it where `changed`.
    pub fn cwd(&self, changed: bool, path: &str) -> (r: CwdResult)
        ensures
            r.ok && r.changed == changed && r.path@ == path@,
            r.message@ == if changed {
                "changed current working directory to "@ + path@
            } else {
                "current working directory is "@ + path@
            },
    {
        let mut message = String::new();
        if changed {
            push_str(&mut message, "changed current working directory to ");
        } else {
            push_str(&mut message, "current working directory is ");
        }
        push_str(&mut message, path);
        CwdResult { ok: true, changed, path: owned(path), message }
    }
}

/// The targets requested for field `f`, in request order.
pub open spec fn requested_targets(ts: Seq<(Seq<char>, Seq<char>)>, f: Seq<char>) -> Seq<Seq<char>> {
    ts.filter(|t: (Seq<char>, Seq<char>)| t.0 == f).map_values(|t: (Seq<char>, Seq<char>)| t.1)
}

proof fn lemma_targets_of_set_field(s: Seq<FieldView>, k: Seq<char>, v: Seq<Seq<char>>, f: Seq<char>)
    requires
        crate::entry::unique_fields(s),
    ensures
        targets_of(set_field(s, k, v), f) == if f == k {
            v
        } else {
            targets_of(s, f)
        },
{
    let r = set_field(s, k, v);
    crate::entry::lemma_set_field_unique(s, k, v);
    crate::entry::lemma_field_index(s, k);
    crate::entry::lemma_field_index(s, f);
    crate::entry::lemma_field_index(r, f);
    if f != k {
        let i = crate::entry::field_index(s, k);
        let j = crate::entry::field_index(s, f);
        assert forall|a: int| 0 <= a < s.len() && a != i implies r[a] == s[a] by {}
        if j >= 0 {
            assert(j != i);
            assert(r[j] == s[j]);
            crate::entry::lemma_field_index_unique(r, f, j);
        } else {
            assert forall|a: int| 0 <= a < r.len() implies r[a].0 != f by {
                if a < s.len() && a != i {
                    assert(r[a] == s[a]);
                }
            }
        }
    }
}

proof fn lemma_pushed_fields_targets(ts: Seq<(Seq<char>, Seq<char>)>, f: Seq<char>)
    ensures
        crate::entry::unique_fields(pushed_fields(Seq::empty(), ts)),
        targets_of(pushed_fields(Seq::empty(), ts), f) == requested_targets(ts, f),
    decreases ts.len(),
{
    reveal(Seq::filter);
    if ts.len() == 0 {
        assert(requested_targets(ts, f) =~= Seq::<Seq<char>>::empty());
        crate::entry::lemma_field_index(Seq::<FieldView>::empty(), f);
    } else {
        let r = ts.drop_last();
        let t = ts.last();
        lemma_pushed_fields_targets(r, f);
        lemma_pushed_fields_targets(r, t.0);
        let acc = pushed_fields(Seq::empty(), r);
        crate::entry::lemma_set_field_unique(acc, t.0, targets_of(acc, t.0).push(t.1));
        lemma_targets_of_set_field(acc, t.0, targets_of(acc, t.0).push(t.1), f);
        let p = |x: (Seq<char>, Seq<char>)| x.0 == f;
        let g = |x: (Seq<char>, Seq<char>)| x.1;
        if t.0 == f {
            assert(ts.filter(p) == r.filter(p).push(t));
            assert(r.filter(p).push(t).map_values(g) =~= r.filter(p).map_values(g).push(t.1));
        } else {
            assert(ts.filter(p) == r.filter(p));
        }
    }
}

/// A created entry holds, under each structural field, exactly the targets requested for that
/// field, in request order: none is dropped, none is added, and a field that was not
/// requested holds no target. No field name occurs twice.
pub proof fn law_new_entry_targets(request: EntryNewRequest, f: Seq<char>)
    ensures
        targets_of(new_entry_view(&request).metadata.structural, f) == requested_targets(
            targets_view(request.structural@),
            f,
        ),
        crate::entry::unique_fields(new_entry_view(&request).metadata.structural),
{
    lemma_pushed_fields_targets(targets_view(request.structural@), f);
}

} // verus!
