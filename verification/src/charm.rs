//! Charm manifests: entry-owned artifact bundles that declare ready-to-run commands.
//!
//! A manifest's commands are argv vectors; a source charm also declares a build command
//! and, optionally, where the build puts the spell. A charm's state is fingerprinted with
//! SHA-256 over its entry and its artifacts.

use vstd::prelude::*;

use crate::address::{EntryAddress, text_less, lemma_text_less_irreflexive, lemma_text_less_total, lemma_text_less_transitive, compare_texts, Order};
use crate::artifact::{EntryArtifact, EntryArtifactPath, EntryArtifactPathError, cur_dir, parent_dir};
use crate::path::{component_rank, components_of, path_components, root_dir};
use crate::text::{chars_of, decimal, decimal_string, owned, push_str, split_on};
use crate::digest::{hex_digest, hex_text, sha256, sha256_digest};
use crate::entry::Entry;
use crate::render::{EntryRenderError, entry_markdown};
use crate::sorted::strictly_sorted;

verus! {

/// File name of a charm manifest inside an entry's artifact root.
pub const CHARM_MANIFEST_FILE_NAME: &'static str = "Sirno.charm.toml";

/// Repository-local cache directory for built spells.
pub const SPELL_CACHE_DIRECTORY: &'static str = ".sirno/spells";

#[verifier::external_type_specification]
#[verifier::external_body]
pub struct ExTomlValue(toml::Value);

/// One command declared by a manifest.
#[derive(Clone, Debug, PartialEq, Eq)]
pub struct CharmCommandSpec {
    /// Command argv vector.
    pub command: Vec<String>,
}

/// Build command of a source charm.
#[derive(Clone, Debug, PartialEq, Eq)]
pub struct CharmBuildSpec {
    /// Build command argv vector.
    pub command: Vec<String>,
    /// Where the build puts the spell, relative to the spell cache or artifact root.
    pub output: Option<String>,
}

/// Spell invocation of a manifest.
#[derive(Clone, Debug, PartialEq, Eq)]
pub struct SpellSpec {
    /// Spell command argv vector.
    pub command: Vec<String>,
}

/// Preparation commands of a charm.
#[derive(Clone, Debug, Default, PartialEq, Eq)]
pub struct CharmPreparationSpec {
    /// Optional setup command.
    pub setup: Option<CharmCommandSpec>,
    /// Optional check command.
    pub check: Option<CharmCommandSpec>,
    /// Optional build command.
    pub build: Option<CharmBuildSpec>,
}

/// A parsed `Sirno.charm.toml` manifest.
#[derive(Clone, Debug)]
pub struct CharmManifest {
    /// Spell invocation.
    pub spell: SpellSpec,
    /// Preparation commands.
    pub charm: CharmPreparationSpec,
    /// Hook ids for which the charm is eligible.
    pub hooks: Vec<String>,
    /// Input declaration, kept as it was read.
    pub inputs: Option<toml::Value>,
}

/// Error raised by charm discovery, parsing or validation.
#[derive(Debug)]
pub enum CharmError {
    /// An entry has no manifest artifact.
    MissingManifest(EntryAddress),
    /// A manifest is not UTF-8.
    ManifestUtf8,
    /// A manifest is not valid TOML; the parser's explanation.
    ManifestParse(String),
    /// A command vector is empty.
    EmptyCommand(&'static str),
    /// A command vector holds an empty argument.
    EmptyCommandArgument(&'static str),
    /// A build output path is not a normal relative path.
    InvalidBuildOutput(String),
    /// A manifest artifact path cannot be represented.
    ArtifactPath(EntryArtifactPathError),
}

impl CharmError {
    /// Human-readable description.
    pub fn message(&self) -> (r: String)
        ensures
            match self {
                CharmError::MissingManifest(id) => r@ == "entry `"@ + id@ + "` has no Sirno.charm.toml artifact"@,
                CharmError::ManifestUtf8 => r@ == "Sirno.charm.toml must be UTF-8"@,
                CharmError::ManifestParse(detail) => r@ == "failed to parse Sirno.charm.toml: "@ + detail@,
                CharmError::EmptyCommand(field) => r@ == field@ + " must contain at least one argv element"@,
                CharmError::EmptyCommandArgument(field) => r@ == field@ + " must not contain empty argv elements"@,
                CharmError::InvalidBuildOutput(path) => r@ == "charm.build.output must be a normal relative path: "@ + path@,
                CharmError::ArtifactPath(e) => r@ == crate::artifact::artifact_path_error_message(*e),
            },
    {
        let mut out = String::new();
        match self {
            CharmError::MissingManifest(id) => {
                push_str(&mut out, "entry `");
                push_str(&mut out, id.as_str());
                push_str(&mut out, "` has no Sirno.charm.toml artifact");
            },
            CharmError::ManifestUtf8 => {
                push_str(&mut out, "Sirno.charm.toml must be UTF-8");
            },
            CharmError::ManifestParse(detail) => {
                push_str(&mut out, "failed to parse Sirno.charm.toml: ");
                push_str(&mut out, detail.as_str());
            },
            CharmError::EmptyCommand(field) => {
                push_str(&mut out, field);
                push_str(&mut out, " must contain at least one argv element");
            },
            CharmError::EmptyCommandArgument(field) => {
                push_str(&mut out, field);
                push_str(&mut out, " must not contain empty argv elements");
            },
            CharmError::InvalidBuildOutput(path) => {
                push_str(&mut out, "charm.build.output must be a normal relative path: ");
                push_str(&mut out, path.as_str());
            },
            CharmError::ArtifactPath(e) => {
                return e.message();
            },
        }
        out
    }
}

/// An argv vector: at least one element, none of them empty.
pub open spec fn valid_argv(argv: Seq<String>) -> bool {
    argv.len() > 0 && forall|i: int| 0 <= i < argv.len() ==> (#[trigger] argv[i])@.len() > 0
}

/// Check that `argv` is a command vector; `field` names it in the error.
pub fn validate_argv(field: &'static str, argv: &[String]) -> (r: Result<(), CharmError>)
    ensures
        argv@.len() == 0 ==> (r matches Err(CharmError::EmptyCommand(f)) && f@ == field@),
        argv@.len() > 0 && !valid_argv(argv@) ==> (r matches Err(CharmError::EmptyCommandArgument(f))
            && f@ == field@),
        valid_argv(argv@) ==> r is Ok,
{
    if argv.len() == 0 {
        return Err(CharmError::EmptyCommand(field));
    }
    let mut i: usize = 0;
    while i < argv.len()
        invariant
            i <= argv@.len(),
            forall|k: int| 0 <= k < i ==> (#[trigger] argv@[k])@.len() > 0,
        decreases argv@.len() - i,
    {
        if argv[i].as_str().is_empty() {
            return Err(CharmError::EmptyCommandArgument(field));
        }
        i = i + 1;
    }
    Ok(())
}

/// A normal relative path: non-empty, and every component a name.
pub open spec fn normal_relative_path(p: Seq<char>) -> bool {
    &&& p.len() > 0
    &&& forall|i: int|
        0 <= i < path_components(p).len() ==> component_rank(#[trigger] path_components(p)[i])
            == '\u{3}'
}

/// Check that a build output path is a normal relative path.
pub fn validate_relative_output(path: &str) -> (r: Result<(), CharmError>)
    ensures
        normal_relative_path(path@) ==> r is Ok,
        !normal_relative_path(path@) ==> (r matches Err(CharmError::InvalidBuildOutput(p)) && p@
            == path@),
{
    if path.is_empty() {
        return Err(CharmError::InvalidBuildOutput(owned(path)));
    }
    let cs = components_of(path);
    let ghost pc = path_components(path@);
    assert(cs@.map_values(|c: Vec<char>| c@) == pc);
    let mut i: usize = 0;
    while i < cs.len()
        invariant
            i <= cs@.len(),
            cs@.len() == pc.len(),
            pc == path_components(path@),
            path@.len() > 0,
            forall|k: int| 0 <= k < pc.len() ==> (#[trigger] cs@[k])@ == pc[k],
            forall|k: int| 0 <= k < i ==> component_rank(#[trigger] pc[k]) == '\u{3}',
        decreases cs@.len() - i,
    {
        let c = &cs[i];
        assert(c@ == pc[i as int]);
        let special = (c.len() == 1 && (c[0] == '/' || c[0] == '.')) || (c.len() == 2 && c[0]
            == '.' && c[1] == '.');
        assert(special == (component_rank(c@) != '\u{3}')) by {
            if c@ == root_dir() {
                assert(c@[0] == '/');
            }
            if c@ == cur_dir() {
                assert(c@[0] == '.');
            }
            if c@ == parent_dir() {
                assert(c@[0] == '.' && c@[1] == '.');
            }
            if c.len() == 1 && c[0] == '/' {
                assert(c@ =~= root_dir());
            }
            if c.len() == 1 && c[0] == '.' {
                assert(c@ =~= cur_dir());
            }
            if c.len() == 2 && c[0] == '.' && c[1] == '.' {
                assert(c@ =~= parent_dir());
            }
        }
        if special {
            assert(component_rank(pc[i as int]) != '\u{3}');
            return Err(CharmError::InvalidBuildOutput(owned(path)));
        }
        i = i + 1;
    }
    Ok(())
}

/// Whether every declared command of a manifest is valid, in the order they are checked.
pub open spec fn manifest_outcome(m: CharmManifest) -> Result<(), (Seq<char>, bool)> {
    if !valid_argv(m.spell.command@) {
        Err(("spell.command"@, m.spell.command@.len() == 0))
    } else if m.charm.setup matches Some(s) && !valid_argv(s.command@) {
        Err(("charm.setup.command"@, m.charm.setup->0.command@.len() == 0))
    } else if m.charm.check matches Some(c) && !valid_argv(c.command@) {
        Err(("charm.check.command"@, m.charm.check->0.command@.len() == 0))
    } else if m.charm.build matches Some(b) && !valid_argv(b.command@) {
        Err(("charm.build.command"@, m.charm.build->0.command@.len() == 0))
    } else {
        Ok(())
    }
}

/// The build output of a manifest, when it declares one.
pub open spec fn build_output(m: CharmManifest) -> Option<Seq<char>> {
    match m.charm.build {
        Some(b) => match b.output {
            Some(o) => Some(o@),
            None => None,
        },
        None => None,
    }
}

impl CharmManifest {
    /// Whether the manifest declares a build command.
    pub fn is_source(&self) -> (r: bool)
        ensures
            r == (self.charm.build is Some),
    {
        self.charm.build.is_some()
    }

    /// Check every declared command, then the build output path.
    pub fn validate(&self) -> (r: Result<(), CharmError>)
        ensures
            match manifest_outcome(*self) {
                Err((field, empty)) => if empty {
                    r matches Err(CharmError::EmptyCommand(f)) && f@ == field
                } else {
                    r matches Err(CharmError::EmptyCommandArgument(f)) && f@ == field
                },
                Ok(()) => match build_output(*self) {
                    Some(o) if !normal_relative_path(o) => r matches Err(
                        CharmError::InvalidBuildOutput(p),
                    ) && p@ == o,
                    _ => r is Ok,
                },
            },
    {
        validate_argv("spell.command", self.spell.command.as_slice())?;
        match &self.charm.setup {
            Some(setup) => {
                validate_argv("charm.setup.command", setup.command.as_slice())?;
            },
            None => {},
        }
        match &self.charm.check {
            Some(check) => {
                validate_argv("charm.check.command", check.command.as_slice())?;
            },
            None => {},
        }
        match &self.charm.build {
            Some(build) => {
                validate_argv("charm.build.command", build.command.as_slice())?;
                match &build.output {
                    Some(output) => {
                        validate_relative_output(output.as_str())?;
                    },
                    None => {},
                }
            },
            None => {},
        }
        Ok(())
    }
}

/// Path and content of each artifact, in order.
pub open spec fn artifacts_view(v: Seq<EntryArtifact>) -> Seq<(Seq<char>, Seq<u8>)> {
    v.map_values(|a: EntryArtifact| (a.path@, a.content@))
}

/// Path and content of each map item, in order.
pub open spec fn artifact_items_view(v: Seq<(EntryArtifactPath, Vec<u8>)>) -> Seq<(Seq<char>, Seq<u8>)> {
    v.map_values(|item: (EntryArtifactPath, Vec<u8>)| (item.0@, item.1@))
}

/// The paths of map items, in order.
pub open spec fn item_paths(m: Seq<(Seq<char>, Seq<u8>)>) -> Seq<Seq<char>> {
    m.map_values(|item: (Seq<char>, Seq<u8>)| item.0)
}

/// Content of the last artifact at path `p`.
pub open spec fn last_content(arts: Seq<(Seq<char>, Seq<u8>)>, p: Seq<char>) -> Seq<u8>
    decreases arts.len(),
{
    if arts.len() == 0 {
        Seq::empty()
    } else if arts.last().0 == p {
        arts.last().1
    } else {
        last_content(arts.drop_last(), p)
    }
}

/// Some artifact has path `p`.
pub open spec fn has_artifact_path(arts: Seq<(Seq<char>, Seq<u8>)>, p: Seq<char>) -> bool {
    exists|j: int| 0 <= j < arts.len() && arts[j].0 == p
}

/// `m` maps each artifact path, in path order, to the content of its last artifact.
pub open spec fn artifact_map_of(arts: Seq<(Seq<char>, Seq<u8>)>, m: Seq<(Seq<char>, Seq<u8>)>) -> bool {
    &&& strictly_sorted(item_paths(m))
    &&& forall|p: Seq<char>| #[trigger] item_paths(m).contains(p) <==> has_artifact_path(arts, p)
    &&& forall|i: int| 0 <= i < m.len() ==> (#[trigger] m[i]).1 == last_content(arts, m[i].0)
}

proof fn lemma_artifact_map_step(arts: Seq<(Seq<char>, Seq<u8>)>, j: int)
    requires
        0 <= j < arts.len(),
    ensures
        forall|p: Seq<char>| #[trigger] has_artifact_path(arts.take(j + 1), p) <==> (has_artifact_path(arts.take(j), p) || p == arts[j].0),
        last_content(arts.take(j + 1), arts[j].0) == arts[j].1,
        forall|p: Seq<char>| p != arts[j].0 ==> #[trigger] last_content(arts.take(j + 1), p) == last_content(arts.take(j), p),
{
    let t0 = arts.take(j);
    let t1 = arts.take(j + 1);
    assert(t1.drop_last() =~= t0);
    assert(t1.last() == arts[j]);
    assert forall|p: Seq<char>| #[trigger] has_artifact_path(t1, p) <==> (has_artifact_path(t0, p) || p == arts[j].0) by {
        if has_artifact_path(t1, p) {
            let k = choose|k: int| 0 <= k < t1.len() && t1[k].0 == p;
            if k < j {
                assert(t0[k] == t1[k]);
            }
        }
        if has_artifact_path(t0, p) {
            let k = choose|k: int| 0 <= k < t0.len() && t0[k].0 == p;
            assert(t1[k] == t0[k]);
        }
        if p == arts[j].0 {
            assert(t1[j].0 == p);
        }
    }
}

/// Collect artifacts into a map from path to content, in path order; a later artifact at a
/// path replaces an earlier one.
pub fn artifact_map(artifacts: Vec<EntryArtifact>) -> (r: Vec<(EntryArtifactPath, Vec<u8>)>)
    ensures
        artifact_map_of(artifacts_view(artifacts@), artifact_items_view(r@)),
{
    let ghost arts = artifacts_view(artifacts@);
    let total: usize = artifacts.len();
    let mut rest = artifacts;
    let mut m: Vec<(EntryArtifactPath, Vec<u8>)> = Vec::new();
    let mut j: usize = 0;
    assert(arts.take(0) =~= Seq::<(Seq<char>, Seq<u8>)>::empty());
    assert(item_paths(artifact_items_view(m@)) =~= Seq::<Seq<char>>::empty());
    assert(rest@ =~= rest@.subrange(0, rest@.len() as int));
    while rest.len() > 0
        invariant
            j + rest@.len() == arts.len(),
            arts.len() == total,
            artifacts_view(rest@) == arts.subrange(j as int, arts.len() as int),
            artifact_map_of(arts.take(j as int), artifact_items_view(m@)),
        decreases rest@.len(),
    {
        let ghost mv = artifact_items_view(m@);
        let ghost ks = item_paths(mv);
        let ghost before_rest = rest@;
        let a = rest.remove(0);
        assert(artifacts_view(before_rest)[0] == (a.path@, a.content@));
        assert(arts[j as int] == (a.path@, a.content@));
        assert(rest@ =~= before_rest.subrange(1, before_rest.len() as int));
        assert(artifacts_view(rest@) =~= artifacts_view(before_rest).subrange(1, before_rest.len() as int));
        assert(artifacts_view(rest@) =~= arts.subrange(j + 1, arts.len() as int));
        proof {
            lemma_artifact_map_step(arts, j as int);
        }
        let chars = chars_of(a.path.as_str());
        let mut q: usize = 0;
        while q < m.len() && matches!(compare_texts(chars_of(m[q].0.as_str()).as_slice(), chars.as_slice()), Order::Less)
            invariant
                q <= m@.len(),
                mv == artifact_items_view(m@),
                ks == item_paths(mv),
                chars@ == a.path@,
                forall|i: int| 0 <= i < q ==> text_less(#[trigger] ks[i], a.path@),
            decreases m@.len() - q,
        {
            assert(ks[q as int] == m@[q as int].0@);
            q = q + 1;
        }
        let found = q < m.len() && crate::text::str_eq(a.path.as_str(), m[q].0.as_str());
        let ghost t1 = arts.take(j + 1);
        if found {
            assert(ks[q as int] == m@[q as int].0@);
            assert(ks[q as int] == a.path@);
            let path = a.path;
            let content = a.content;
            m.set(q, (path, content));
            proof {
                let nv = artifact_items_view(m@);
                assert(nv =~= mv.update(q as int, (a.path@, a.content@)));
                assert(item_paths(nv) =~= ks);
                assert forall|i: int| 0 <= i < nv.len() implies (#[trigger] nv[i]).1 == last_content(t1, nv[i].0) by {
                    if i != q {
                        assert(nv[i] == mv[i]);
                        assert(ks[i] != a.path@) by {
                            crate::sorted::lemma_sorted_unique_index(ks, i, q as int);
                        }
                    }
                }
                assert forall|p: Seq<char>| #[trigger] item_paths(nv).contains(p) <==> has_artifact_path(t1, p) by {
                    if p == a.path@ {
                        assert(ks[q as int] == p);
                    }
                }
            }
        } else {
            proof {
                if q < ks.len() {
                    assert(ks[q as int] == m@[q as int].0@);
                    lemma_text_less_total(ks[q as int], a.path@);
                }
                assert(!ks.contains(a.path@)) by {
                    if ks.contains(a.path@) {
                        let i = choose|i: int| 0 <= i < ks.len() && ks[i] == a.path@;
                        if i < q {
                            lemma_text_less_irreflexive(a.path@);
                        } else {
                            if i > q {
                                lemma_text_less_transitive(a.path@, ks[q as int], ks[i]);
                            }
                            lemma_text_less_irreflexive(a.path@);
                        }
                    }
                }
            }
            let path = a.path;
            let content = a.content;
            m.insert(q, (path, content));
            proof {
                let nv = artifact_items_view(m@);
                let nk = item_paths(nv);
                assert(nv =~= mv.insert(q as int, (a.path@, a.content@)));
                assert(nk =~= ks.insert(q as int, a.path@));
                assert forall|x: int, y: int| 0 <= x < y < nk.len() implies text_less(#[trigger] nk[x], #[trigger] nk[y]) by {
                    if y < q {
                        assert(nk[x] == ks[x] && nk[y] == ks[y]);
                    } else if y == q {
                        assert(nk[x] == ks[x]);
                    } else if x < q {
                        assert(nk[x] == ks[x] && nk[y] == ks[y - 1]);
                        if y - 1 > q {
                            lemma_text_less_transitive(a.path@, ks[q as int], ks[y - 1]);
                        }
                        lemma_text_less_transitive(ks[x], a.path@, ks[y - 1]);
                    } else if x == q {
                        assert(nk[y] == ks[y - 1]);
                        if y - 1 > q {
                            lemma_text_less_transitive(a.path@, ks[q as int], ks[y - 1]);
                        }
                    } else {
                        assert(nk[x] == ks[x - 1] && nk[y] == ks[y - 1]);
                    }
                }
                assert forall|p: Seq<char>| #[trigger] nk.contains(p) <==> has_artifact_path(t1, p) by {
                    if nk.contains(p) {
                        let k = choose|k: int| 0 <= k < nk.len() && nk[k] == p;
                        if k < q {
                            assert(ks[k] == p);
                        } else if k > q {
                            assert(ks[k - 1] == p);
                        }
                    }
                    if ks.contains(p) {
                        let k = choose|k: int| 0 <= k < ks.len() && ks[k] == p;
                        if k < q {
                            assert(nk[k] == p);
                        } else {
                            assert(nk[k + 1] == p);
                        }
                    }
                    if p == a.path@ {
                        assert(nk[q as int] == p);
                    }
                }
                assert forall|i: int| 0 <= i < nv.len() implies (#[trigger] nv[i]).1 == last_content(t1, nv[i].0) by {
                    if i < q {
                        assert(nv[i] == mv[i]);
                        assert(ks[i] != a.path@);
                    } else if i > q {
                        assert(nv[i] == mv[i - 1]);
                        assert(ks[i - 1] != a.path@);
                    }
                }
            }
        }
        j = j + 1;
    }
    assert(arts.take(j as int) =~= arts);
    m
}

/// UTF-8 bytes of a text.
pub open spec fn utf8(t: Seq<char>) -> Seq<u8> {
    vstd::utf8::encode_utf8(t)
}

/// One artifact record of a fingerprint: path, NUL, content length, NUL, content, line feed.
pub open spec fn artifact_record(path: Seq<char>, content: Seq<u8>) -> Seq<u8> {
    utf8(path) + seq![0u8] + utf8(decimal(content.len())) + seq![0u8] + content + seq![10u8]
}

/// Artifact records of map items, in order.
pub open spec fn artifact_records(m: Seq<(Seq<char>, Seq<u8>)>) -> Seq<u8>
    decreases m.len(),
{
    if m.len() == 0 {
        Seq::empty()
    } else {
        artifact_records(m.drop_last()) + artifact_record(m.last().0, m.last().1)
    }
}

/// Bytes hashed for a charm fingerprint.
pub open spec fn charm_fingerprint_input(markdown: Seq<char>, m: Seq<(Seq<char>, Seq<u8>)>) -> Seq<u8> {
    utf8("sirno-charm-v1\n"@) + utf8(markdown) + utf8("\n"@) + artifact_records(m)
}

/// Append bytes.
fn push_bytes(out: &mut Vec<u8>, bytes: &[u8])
    ensures
        final(out)@ == old(out)@ + bytes@,
{
    let mut i: usize = 0;
    while i < bytes.len()
        invariant
            i <= bytes@.len(),
            out@ == old(out)@ + bytes@.take(i as int),
        decreases bytes@.len() - i,
    {
        out.push(bytes[i]);
        i = i + 1;
        assert(out@ =~= old(out)@ + bytes@.take(i as int));
    }
    assert(bytes@.take(i as int) =~= bytes@);
}

/// One discovered charm: its entry, its manifest and its artifacts.
#[derive(Debug)]
pub struct CharmBundle {
    /// Entry that owns the charm.
    pub entry: Entry,
    /// Parsed manifest.
    pub manifest: CharmManifest,
    /// Artifact root of the owning entry.
    pub artifact_root: String,
    /// Artifact contents by path, in path order.
    pub artifacts: Vec<(EntryArtifactPath, Vec<u8>)>,
}

impl CharmBundle {
    /// Whether the charm declares a build command.
    pub fn is_source(&self) -> (r: bool)
        ensures
            r == (self.manifest.charm.build is Some),
    {
        self.manifest.is_source()
    }

    /// `source` for a charm with a build command, else `direct`.
    pub fn kind_label(&self) -> (r: &'static str)
        ensures
            r@ == if self.manifest.charm.build is Some {
                "source"@
            } else {
                "direct"@
            },
    {
        if self.is_source() {
            "source"
        } else {
            "direct"
        }
    }

    /// SHA-256 fingerprint, in lowercase hexadecimal, of the entry's Markdown and the
    /// artifacts in order; fails only where the entry cannot be rendered.
    pub fn fingerprint(&self) -> (r: Result<String, EntryRenderError>)
        ensures
            match r {
                Ok(f) => f@ == hex_text(
                    sha256_digest(
                        charm_fingerprint_input(
                            entry_markdown(self.entry@.id, self.entry@.metadata, self.entry@.body),
                            artifact_items_view(self.artifacts@),
                        ),
                    ),
                ),
                Err(_) => true,
            },
            r is Ok <==> (crate::entry::is_plain(self.entry@.metadata.name) && crate::entry::is_plain(
                self.entry@.metadata.desc,
            ) && crate::render::metadata_renders(self.entry@.metadata)),
            crate::entry::is_plain(self.entry@.metadata.name) && crate::entry::is_plain(self.entry@.metadata.desc) ==> (r is Ok
                || r matches Err(EntryRenderError::Yaml(_))),
    {
        let markdown = self.entry.to_markdown()?;
        let mut input: Vec<u8> = Vec::new();
        push_bytes(&mut input, "sirno-charm-v1\n".as_bytes());
        push_bytes(&mut input, markdown.as_str().as_bytes());
        push_bytes(&mut input, "\n".as_bytes());
        let ghost items = artifact_items_view(self.artifacts@);
        let ghost head = input@;
        let mut i: usize = 0;
        assert(items.take(0) =~= Seq::<(Seq<char>, Seq<u8>)>::empty());
        while i < self.artifacts.len()
            invariant
                i <= items.len(),
                items == artifact_items_view(self.artifacts@),
                input@ == head + artifact_records(items.take(i as int)),
            decreases items.len() - i,
        {
            let item = &self.artifacts[i];
            assert(items.take(i + 1).drop_last() =~= items.take(i as int));
            assert(items.take(i + 1).last() == (item.0@, item.1@));
            push_bytes(&mut input, item.0.as_str().as_bytes());
            input.push(0u8);
            let len_text = decimal_string(item.1.len());
            push_bytes(&mut input, len_text.as_str().as_bytes());
            input.push(0u8);
            push_bytes(&mut input, item.1.as_slice());
            input.push(10u8);
            i = i + 1;
            assert(input@ =~= head + artifact_records(items.take(i as int)));
        }
        assert(items.take(i as int) =~= items);
        let digest = sha256(input.as_slice());
        Ok(hex_digest(digest.as_slice()))
    }
}

/// The artifact path of a charm manifest.
pub fn manifest_artifact_path() -> (r: EntryArtifactPath)
    ensures
        r@ == "Sirno.charm.toml"@,
{
    let p = EntryArtifactPath::new(CHARM_MANIFEST_FILE_NAME);
    proof {
        reveal_strlit("Sirno.charm.toml");
        let t = "Sirno.charm.toml"@;
        crate::text::lemma_split_on_absent(t, '/');
        let ps = split_on(t, '/');
        assert(ps == seq![t]);
        assert(t != cur_dir());
        assert(t != parent_dir());
        assert(!crate::artifact::has_parent_part(ps));
        assert(t.len() == 16);
        assert(crate::artifact::normal_part(t));
        assert(ps.last() == t);
        assert(ps.drop_last() =~= Seq::<Seq<char>>::empty());
        assert(crate::artifact::normal_parts(Seq::<Seq<char>>::empty()) == Seq::<Seq<char>>::empty());
        assert(crate::artifact::normal_parts(ps) =~= seq![t]);
        assert(crate::text::join_with(seq![t], seq!['/']) == t);
    }
    match p {
        Ok(path) => path,
        Err(_) => {
            assert(false);
            EntryArtifactPath::new(CHARM_MANIFEST_FILE_NAME).unwrap()
        },
    }
}

/// Commands are accepted exactly when every declared command (spell, setup, check and build)
/// is a non-empty argv vector with no empty element; a refused manifest names a declared
/// command that is not, and says whether it was empty.
pub proof fn law_manifest_commands(m: CharmManifest)
    ensures
        manifest_outcome(m) is Ok <==> {
            &&& valid_argv(m.spell.command@)
            &&& (m.charm.setup matches Some(s) ==> valid_argv(s.command@))
            &&& (m.charm.check matches Some(c) ==> valid_argv(c.command@))
            &&& (m.charm.build matches Some(b) ==> valid_argv(b.command@))
        },
        manifest_outcome(m) matches Err((f, empty)) ==> {
            ||| f == "spell.command"@ && !valid_argv(m.spell.command@) && empty == (
            m.spell.command@.len() == 0)
            ||| m.charm.setup matches Some(s) && f == "charm.setup.command"@ && !valid_argv(
                s.command@,
            ) && empty == (s.command@.len() == 0)
            ||| m.charm.check matches Some(c) && f == "charm.check.command"@ && !valid_argv(
                c.command@,
            ) && empty == (c.command@.len() == 0)
            ||| m.charm.build matches Some(b) && f == "charm.build.command"@ && !valid_argv(
                b.command@,
            ) && empty == (b.command@.len() == 0)
        },
{
}

} // verus!
