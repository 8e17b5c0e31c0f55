//! Canonical Markdown rendering of entries.

use vstd::prelude::*;

use crate::address::EntryAddress;
use crate::entry::{field_pair_view, is_plain, validate_plain_string, Entry, EntryMeta, EntryMetadata, EntryParseError, FieldView, FrozenMarker, MetadataView, ParseErrorView};
use crate::structural::StructuralTideSettings;
use crate::text::{chars_of, has_suffix, push_str, slice_has_suffix, string_from};
use crate::frontmatter::{fence_free, framed, split_frontmatter_spec, whole_lines, without_last_ending};

verus! {

/// What `serde_yaml` makes of one string value: the YAML document it writes, or the
/// message of the error it reports.
pub uninterp spec fn yaml_string_outcome(value: Seq<char>) -> Result<Seq<char>, Seq<char>>;

/// Serialize one string as a YAML document with `serde_yaml::to_string`.
///
/// The contract names the whole outcome of the serializer (the document, or the error's
/// message) as a function of the string alone; what the document is, and on which strings
/// the serializer fails, is not stated.
#[verifier::external_body]
fn serialize_yaml_string(value: &str) -> (r: Result<String, String>)
    ensures
        match r {
            Ok(doc) => yaml_string_outcome(value@) == Ok::<Seq<char>, Seq<char>>(doc@),
            Err(m) => yaml_string_outcome(value@) == Err::<Seq<char>, Seq<char>>(m@),
        },
{
    serde_yaml::to_string(value).map_err(|e| e.to_string())
}

/// Why an entry cannot be rendered.
#[derive(Clone, Debug, PartialEq, Eq)]
pub enum EntryRenderError {
    /// The metadata breaks the single-line invariant of a string field.
    InvalidMetadata(EntryParseError),
    /// The YAML serializer failed; its message.
    Yaml(String),
}

/// `\n...\n`, the document end marker that the serializer may append.
pub open spec fn document_end() -> Seq<char> {
    seq!['\n', '.', '.', '.', '\n']
}

/// `s` without trailing line feeds.
pub open spec fn trim_trailing_lf(s: Seq<char>) -> Seq<char>
    decreases s.len(),
{
    if s.len() > 0 && s.last() == '\n' {
        trim_trailing_lf(s.drop_last())
    } else {
        s
    }
}

/// The serializer writes a document for the value.
pub open spec fn yaml_renders(value: Seq<char>) -> bool {
    yaml_string_outcome(value) is Ok
}

/// Every target of a list renders.
pub open spec fn targets_render(ts: Seq<Seq<char>>) -> bool {
    forall|j: int| 0 <= j < ts.len() ==> yaml_renders(#[trigger] ts[j])
}

/// Every target of every structural field renders.
pub open spec fn fields_render(fs: Seq<FieldView>) -> bool {
    forall|i: int| 0 <= i < fs.len() ==> targets_render(#[trigger] fs[i].1)
}

/// Every value that metadata rendering serializes renders: name, description and targets.
pub open spec fn metadata_renders(m: MetadataView) -> bool {
    yaml_renders(m.name) && yaml_renders(m.desc) && fields_render(m.structural)
}

/// A YAML scalar for one value: the serialized document without end marker or final line feeds.
pub open spec fn yaml_scalar(value: Seq<char>) -> Seq<char> {
    let doc = yaml_string_outcome(value)->Ok_0;
    let doc = if has_suffix(doc, document_end()) {
        doc.subrange(0, doc.len() - 5)
    } else {
        doc
    };
    trim_trailing_lf(doc)
}

/// Render one value as a YAML scalar.
pub fn render_yaml_scalar(value: &str) -> (r: Result<String, EntryRenderError>)
    ensures
        r is Ok <==> yaml_renders(value@),
        r matches Ok(s) ==> s@ == yaml_scalar(value@),
        r matches Err(e) ==> (e matches EntryRenderError::Yaml(m) && yaml_string_outcome(value@) == Err::<
            Seq<char>,
            Seq<char>,
        >(m@)),
{
    let doc = match serialize_yaml_string(value) {
        Ok(d) => d,
        Err(m) => {
            return Err(EntryRenderError::Yaml(m));
        },
    };
    let chars = chars_of(doc.as_str());
    let end = vec!['\n', '.', '.', '.', '\n'];
    assert(end@ =~= document_end());
    let mut len = chars.len();
    if slice_has_suffix(chars.as_slice(), end.as_slice()) {
        len = len - 5;
    }
    let ghost stripped = chars@.subrange(0, len as int);
    assert(stripped == (if has_suffix(chars@, document_end()) {
        chars@.subrange(0, chars@.len() - 5)
    } else {
        chars@
    })) by {
        if !has_suffix(chars@, document_end()) {
            assert(chars@.subrange(0, chars@.len() as int) =~= chars@);
        }
    }
    while len > 0 && chars[len - 1] == '\n'
        invariant
            len <= chars@.len(),
            trim_trailing_lf(stripped) == trim_trailing_lf(chars@.subrange(0, len as int)),
        decreases len,
    {
        assert(chars@.subrange(0, len as int).drop_last() =~= chars@.subrange(0, len - 1));
        len = len - 1;
    }
    Ok(string_from(crate::text::slice_range(chars.as_slice(), 0, len).as_slice()))
}

/// Rendered lines of a freeze marker.
pub open spec fn frozen_lines(f: FrozenMarker) -> Seq<char> {
    let head = "  frozen:\n"@;
    let reviewed = if f.spec_reviewed() {
        "    - reviewed\n"@
    } else {
        Seq::empty()
    };
    let managed = if f.spec_managed() {
        "    - managed\n"@
    } else {
        Seq::empty()
    };
    head + reviewed + managed
}

/// One enabled flat tide field line.
pub open spec fn tide_line(line: Seq<char>, dir: Seq<char>, enabled: bool) -> Seq<char> {
    if enabled {
        "meta."@ + line + "."@ + dir + ": true\n"@
    } else {
        Seq::empty()
    }
}

/// Rendered flat tide fields.
pub open spec fn tide_lines(t: StructuralTideSettings) -> Seq<char> {
    if t.spec_is_empty() {
        "meta.lake: false\nmeta.frost: false\n"@
    } else {
        tide_line_group("lake"@, t.to.lake, t.from.lake, t.clique.lake) + tide_line_group(
            "frost"@,
            t.to.frost,
            t.from.frost,
            t.clique.frost,
        )
    }
}

/// The enabled fields of one tide line, in direction order `to`, `from`, `clique`.
pub open spec fn tide_line_group(line: Seq<char>, to: bool, from: bool, clique: bool) -> Seq<char> {
    tide_line(line, "to"@, to) + tide_line(line, "from"@, from) + tide_line(line, "clique"@, clique)
}

/// Rendered managed metadata: the freeze marker under `meta`, then the flat tide fields.
pub open spec fn meta_lines(m: EntryMeta) -> Seq<char> {
    let frozen = match m.frozen {
        Some(f) => "meta:\n"@ + frozen_lines(f),
        None => Seq::empty(),
    };
    let tide = match m.tide {
        Some(t) => tide_lines(t),
        None => Seq::empty(),
    };
    frozen + tide
}

/// Rendered target list items.
pub open spec fn target_items(ts: Seq<Seq<char>>) -> Seq<char>
    decreases ts.len(),
{
    if ts.len() == 0 {
        Seq::empty()
    } else {
        target_items(ts.drop_last()) + "  - "@ + yaml_scalar(ts.last()) + "\n"@
    }
}

/// Rendered structural field.
pub open spec fn field_lines(f: FieldView) -> Seq<char> {
    if f.1.len() == 0 {
        f.0 + ": []\n"@
    } else {
        f.0 + ":\n"@ + target_items(f.1)
    }
}

/// Rendered structural fields in order.
pub open spec fn structural_lines(fs: Seq<FieldView>) -> Seq<char>
    decreases fs.len(),
{
    if fs.len() == 0 {
        Seq::empty()
    } else {
        structural_lines(fs.drop_last()) + field_lines(fs.last())
    }
}

/// Canonical YAML source of entry metadata.
pub open spec fn metadata_yaml(m: MetadataView) -> Seq<char> {
    "name: "@ + yaml_scalar(m.name) + "\n"@ + "desc: "@ + yaml_scalar(m.desc) + "\n"@ + meta_lines(
        m.meta,
    ) + structural_lines(m.structural)
}

/// Canonical Markdown source of an entry.
pub open spec fn entry_markdown(id: Seq<char>, m: MetadataView, body: Seq<char>) -> Seq<char> {
    "---\n"@ + metadata_yaml(m) + "---\n\n"@ + body
}

/// Append the rendered freeze marker lines.
fn push_frozen(out: &mut String, f: &FrozenMarker)
    ensures
        final(out)@ == old(out)@ + frozen_lines(*f),
{
    push_str(out, "  frozen:\n");
    if f.is_reviewed() {
        push_str(out, "    - reviewed\n");
    }
    let ghost mid = out@;
    if f.is_managed() {
        push_str(out, "    - managed\n");
    }
    assert(final(out)@ =~= old(out)@ + frozen_lines(*f));
}

/// Append one flat tide field line when enabled.
fn push_tide_line(out: &mut String, line: &str, dir: &str, enabled: bool)
    ensures
        final(out)@ == old(out)@ + tide_line(line@, dir@, enabled),
{
    if enabled {
        push_str(out, "meta.");
        push_str(out, line);
        push_str(out, ".");
        push_str(out, dir);
        push_str(out, ": true\n");
        assert(final(out)@ =~= old(out)@ + tide_line(line@, dir@, enabled));
    } else {
        assert(final(out)@ =~= old(out)@ + tide_line(line@, dir@, enabled));
    }
}

/// Append the enabled fields of one tide line.
fn push_tide_group(out: &mut String, line: &str, to: bool, from: bool, clique: bool)
    ensures
        final(out)@ == old(out)@ + tide_line_group(line@, to, from, clique),
{
    push_tide_line(out, line, "to", to);
    push_tide_line(out, line, "from", from);
    push_tide_line(out, line, "clique", clique);
    assert(final(out)@ =~= old(out)@ + tide_line_group(line@, to, from, clique));
}

/// Append the rendered flat tide fields.
fn push_tide(out: &mut String, t: &StructuralTideSettings)
    ensures
        final(out)@ == old(out)@ + tide_lines(*t),
{
    if t.is_empty() {
        push_str(out, "meta.lake: false\nmeta.frost: false\n");
    } else {
        push_tide_group(out, "lake", t.to.lake, t.from.lake, t.clique.lake);
        push_tide_group(out, "frost", t.to.frost, t.from.frost, t.clique.frost);
    }
    assert(final(out)@ =~= old(out)@ + tide_lines(*t));
}

/// Append the rendered managed metadata.
fn push_meta(out: &mut String, m: &EntryMeta)
    ensures
        final(out)@ == old(out)@ + meta_lines(*m),
{
    let ghost start = out@;
    if let Some(f) = &m.frozen {
        push_str(out, "meta:\n");
        push_frozen(out, f);
    }
    assert(out@ =~= start + match m.frozen {
        Some(f) => "meta:\n"@ + frozen_lines(f),
        None => Seq::empty(),
    });
    let ghost mid = out@;
    if let Some(t) = &m.tide {
        push_tide(out, t);
    }
    assert(out@ =~= mid + match m.tide {
        Some(t) => tide_lines(t),
        None => Seq::empty(),
    });
    assert(out@ =~= start + meta_lines(*m));
}

/// Append the rendered structural fields.
fn push_structural(out: &mut String, fields: &[(String, Vec<EntryAddress>)]) -> (r: Result<
    (),
    EntryRenderError,
>)
    ensures
        r is Ok ==> final(out)@ == old(out)@ + structural_lines(
            fields@.map_values(|p: (String, Vec<EntryAddress>)| field_pair_view(p)),
        ),
        r is Ok <==> fields_render(fields@.map_values(|p: (String, Vec<EntryAddress>)| field_pair_view(p))),
        r matches Err(e) ==> e is Yaml,
{
    let ghost fs = fields@.map_values(|p: (String, Vec<EntryAddress>)| field_pair_view(p));
    let ghost start = out@;
    let mut i: usize = 0;
    assert(fs.subrange(0, 0) =~= Seq::<FieldView>::empty());
    while i < fields.len()
        invariant
            i <= fields@.len(),
            fs == fields@.map_values(|p: (String, Vec<EntryAddress>)| field_pair_view(p)),
            out@ == start + structural_lines(fs.subrange(0, i as int)),
            forall|k: int| 0 <= k < i ==> targets_render(#[trigger] fs[k].1),
        decreases fields@.len() - i,
    {
        let ghost before = out@;
        let name = &fields[i].0;
        let targets = &fields[i].1;
        push_str(out, name.as_str());
        if targets.len() == 0 {
            push_str(out, ": []\n");
        } else {
            push_str(out, ":\n");
            let mut j: usize = 0;
            let ghost ts = fs[i as int].1;
            let ghost head = out@;
            assert(ts.subrange(0, 0) =~= Seq::<Seq<char>>::empty());
            while j < targets.len()
                invariant
                    j <= targets@.len(),
                    ts == crate::entry::addresses_view(targets@),
                    out@ == head + target_items(ts.subrange(0, j as int)),
                    forall|l: int| 0 <= l < j ==> yaml_renders(#[trigger] ts[l]),
                    fs == fields@.map_values(|p: (String, Vec<EntryAddress>)| field_pair_view(p)),
                    i < fs.len(),
                    ts == fs[i as int].1,
                decreases targets@.len() - j,
            {
                assert(ts[j as int] == targets@[j as int]@);
                let scalar = match render_yaml_scalar(targets[j].as_str()) {
                    Ok(s) => s,
                    Err(e) => {
                        assert(!yaml_renders(ts[j as int]));
                        assert(!targets_render(fs[i as int].1));
                        assert(!fields_render(fs));
                        return Err(e);
                    },
                };
                push_str(out, "  - ");
                push_str(out, scalar.as_str());
                push_str(out, "\n");
                assert(ts.subrange(0, j + 1).drop_last() =~= ts.subrange(0, j as int));
                j = j + 1;
            }
            assert(ts.subrange(0, targets@.len() as int) =~= ts);
            assert(targets_render(fs[i as int].1));
        }
        assert(out@ =~= before + field_lines(fs[i as int]));
        assert(fs.subrange(0, i + 1).drop_last() =~= fs.subrange(0, i as int));
        i = i + 1;
    }
    assert(fs.subrange(0, fields@.len() as int) =~= fs);
    assert(fields_render(fs));
    Ok(())
}

impl EntryMetadata {
    /// Render this metadata as canonical YAML source.
    pub fn to_yaml_source(&self) -> (r: Result<String, EntryRenderError>)
        ensures
            r matches Ok(s) ==> s@ == metadata_yaml(self@),
            !is_plain(self@.name) ==> (r matches Err(EntryRenderError::InvalidMetadata(e)) && e@
                == ParseErrorView::FieldMustBePlainString(crate::entry::name_field())),
            is_plain(self@.name) && !is_plain(self@.desc) ==> (r matches Err(
                EntryRenderError::InvalidMetadata(e),
            ) && e@ == ParseErrorView::FieldMustBePlainString(crate::entry::desc_field())),
            is_plain(self@.name) && is_plain(self@.desc) ==> (r is Ok <==> metadata_renders(self@)),
            is_plain(self@.name) && is_plain(self@.desc) ==> (r is Ok || r matches Err(
                EntryRenderError::Yaml(_),
            )),
    {
        proof {
            reveal_strlit("name");
            reveal_strlit("desc");
            assert("name"@ =~= crate::entry::name_field());
            assert("desc"@ =~= crate::entry::desc_field());
        }
        if let Err(e) = validate_plain_string("name", self.name.as_str()) {
            return Err(EntryRenderError::InvalidMetadata(e));
        }
        if let Err(e) = validate_plain_string("desc", self.desc.as_str()) {
            return Err(EntryRenderError::InvalidMetadata(e));
        }
        let name = render_yaml_scalar(self.name.as_str())?;
        let desc = render_yaml_scalar(self.desc.as_str())?;
        let mut out = String::new();
        push_str(&mut out, "name: ");
        push_str(&mut out, name.as_str());
        push_str(&mut out, "\n");
        push_str(&mut out, "desc: ");
        push_str(&mut out, desc.as_str());
        push_str(&mut out, "\n");
        push_meta(&mut out, &self.meta);
        push_structural(&mut out, self.structural.pairs())?;
        assert(out@ =~= metadata_yaml(self@));
        Ok(out)
    }
}

impl Entry {
    /// Render this entry as canonical Markdown source.
    pub fn to_markdown(&self) -> (r: Result<String, EntryRenderError>)
        ensures
            r matches Ok(s) ==> s@ == entry_markdown(self@.id, self@.metadata, self@.body),
            !is_plain(self@.metadata.name) || !is_plain(self@.metadata.desc) ==> r matches Err(
                EntryRenderError::InvalidMetadata(_),
            ),
            is_plain(self@.metadata.name) && is_plain(self@.metadata.desc) ==> (r is Ok
                <==> metadata_renders(self@.metadata)),
            is_plain(self@.metadata.name) && is_plain(self@.metadata.desc) ==> (r is Ok
                || r matches Err(EntryRenderError::Yaml(_))),
    {
        let yaml = self.metadata.to_yaml_source()?;
        let mut out = String::new();
        push_str(&mut out, "---\n");
        push_str(&mut out, yaml.as_str());
        push_str(&mut out, "---\n\n");
        push_str(&mut out, self.body.as_str());
        assert(out@ =~= entry_markdown(self@.id, self@.metadata, self@.body));
        Ok(out)
    }
}


proof fn lemma_whole_lines_concat(a: Seq<char>, b: Seq<char>)
    requires
        whole_lines(a),
        whole_lines(b),
    ensures
        whole_lines(a + b),
{
    if b.len() == 0 {
        assert(a + b =~= a);
    } else {
        assert((a + b).last() == b.last());
    }
}

proof fn lemma_line_ending_last(a: Seq<char>, line_end: Seq<char>)
    requires
        line_end.len() > 0,
        line_end.last() == '\n',
    ensures
        whole_lines(a + line_end),
{
    assert((a + line_end).last() == line_end.last());
}

proof fn lemma_target_items_whole(ts: Seq<Seq<char>>)
    ensures
        whole_lines(target_items(ts)),
        ts.len() > 0 ==> target_items(ts).len() > 0,
    decreases ts.len(),
{
    if ts.len() > 0 {
        reveal_strlit("\n");
        lemma_line_ending_last(target_items(ts.drop_last()) + "  - "@ + yaml_scalar(ts.last()), "\n"@);
    }
}

proof fn lemma_structural_lines_whole(fs: Seq<FieldView>)
    ensures
        whole_lines(structural_lines(fs)),
    decreases fs.len(),
{
    if fs.len() > 0 {
        lemma_structural_lines_whole(fs.drop_last());
        let f = fs.last();
        if f.1.len() == 0 {
            reveal_strlit(": []\n");
            lemma_line_ending_last(f.0, ": []\n"@);
        } else {
            lemma_target_items_whole(f.1);
            lemma_line_ending_last(f.0 + ":\n"@, target_items(f.1));
            assert(f.0 + ":\n"@ + target_items(f.1) == field_lines(f));
        }
        lemma_whole_lines_concat(structural_lines(fs.drop_last()), field_lines(f));
    }
}

proof fn lemma_meta_lines_whole(m: EntryMeta)
    ensures
        whole_lines(meta_lines(m)),
{
    reveal_strlit("meta:\n");
    reveal_strlit("  frozen:\n");
    reveal_strlit("    - reviewed\n");
    reveal_strlit("    - managed\n");
    reveal_strlit("meta.lake: false\nmeta.frost: false\n");
    reveal_strlit(": true\n");
    let frozen = match m.frozen {
        Some(f) => "meta:\n"@ + frozen_lines(f),
        None => Seq::empty(),
    };
    match m.frozen {
        Some(f) => {
            let head = "  frozen:\n"@;
            let reviewed = if f.spec_reviewed() {
                "    - reviewed\n"@
            } else {
                Seq::empty()
            };
            let managed = if f.spec_managed() {
                "    - managed\n"@
            } else {
                Seq::empty()
            };
            lemma_whole_lines_concat(head, reviewed);
            lemma_whole_lines_concat(head + reviewed, managed);
            lemma_whole_lines_concat("meta:\n"@, frozen_lines(f));
        },
        None => {},
    }
    let tide = match m.tide {
        Some(t) => tide_lines(t),
        None => Seq::empty(),
    };
    match m.tide {
        Some(t) => {
            if !t.spec_is_empty() {
                assert forall|line: Seq<char>, dir: Seq<char>, enabled: bool| #[trigger]
                    whole_lines(tide_line(line, dir, enabled)) by {
                    if enabled {
                        lemma_line_ending_last("meta."@ + line + "."@ + dir, ": true\n"@);
                    }
                }
                assert forall|line: Seq<char>, to: bool, from: bool, clique: bool| #[trigger]
                    whole_lines(tide_line_group(line, to, from, clique)) by {
                    assert(whole_lines(tide_line(line, "to"@, to)));
                    assert(whole_lines(tide_line(line, "from"@, from)));
                    assert(whole_lines(tide_line(line, "clique"@, clique)));
                    lemma_whole_lines_concat(tide_line(line, "to"@, to), tide_line(line, "from"@, from));
                    lemma_whole_lines_concat(
                        tide_line(line, "to"@, to) + tide_line(line, "from"@, from),
                        tide_line(line, "clique"@, clique),
                    );
                }
                let lake = tide_line_group("lake"@, t.to.lake, t.from.lake, t.clique.lake);
                let frost = tide_line_group("frost"@, t.to.frost, t.from.frost, t.clique.frost);
                assert(whole_lines(lake));
                assert(whole_lines(frost));
                lemma_whole_lines_concat(lake, frost);
            }
        },
        None => {},
    }
    lemma_whole_lines_concat(frozen, tide);
}

/// What is written reads back: the Markdown source of an entry splits into its body,
/// unchanged, and its rendered metadata (without the last line ending), provided no rendered
/// metadata line is a fence.
pub proof fn law_written_entry_splits_back(id: Seq<char>, m: MetadataView, body: Seq<char>)
    requires
        fence_free(metadata_yaml(m)),
    ensures
        split_frontmatter_spec(entry_markdown(id, m, body)) == Ok::<(Seq<char>, Seq<char>), ParseErrorView>(
            (without_last_ending(metadata_yaml(m)), body),
        ),
{
    reveal_strlit("---\n");
    reveal_strlit("---\n\n");
    reveal_strlit("\n");
    let y = metadata_yaml(m);
    let head = "name: "@ + yaml_scalar(m.name) + "\n"@ + "desc: "@ + yaml_scalar(m.desc) + "\n"@;
    lemma_line_ending_last("name: "@ + yaml_scalar(m.name) + "\n"@ + "desc: "@ + yaml_scalar(m.desc), "\n"@);
    lemma_meta_lines_whole(m.meta);
    lemma_structural_lines_whole(m.structural);
    lemma_whole_lines_concat(head, meta_lines(m.meta));
    lemma_whole_lines_concat(head + meta_lines(m.meta), structural_lines(m.structural));
    assert(y == head + meta_lines(m.meta) + structural_lines(m.structural));
    assert(entry_markdown(id, m, body) =~= framed(y, body));
    crate::frontmatter::law_framed_source_reads_back(y, body);
}

} // verus!
