//! The anchor: the accepted baseline of a lake, kept in `.sirno/anchor.toml`.
//!
//! Each accepted entry is recorded by address with a `sha256:<hex>` fingerprint, an
//! optional fingerprint of its artifact tree, and the structural links that the tide needs
//! on the baseline side.

use vstd::prelude::*;

use crate::address::{EntryAddress, EntryAddressError, address_check, valid_address};
use crate::digest::{hex_digest, hex_text, is_hex_digit, sha256, sha256_digest};
use crate::text::{chars_of, decimal_string, owned, push_str};
use crate::address::{text_less, lemma_text_less_total, lemma_text_less_transitive, lemma_text_less_irreflexive};
use crate::artifact::EntryArtifact;
use crate::charm::{artifact_records, artifacts_view, utf8};
use crate::artifact::cur_dir;
use crate::path::{components_of, parts_view, path_components};
use crate::relocate::{file_label, file_label_of, parent_of_parts, parent_parts, push_part, render, render_parts};
use crate::text::{decimal, push_decimal_u64};

verus! {

/// Directory of project-local Sirno control files.
pub const SIRNO_CONTROL_DIR_NAME: &'static str = ".sirno";

/// File name of the anchor.
pub const ANCHOR_FILE_NAME: &'static str = "anchor.toml";

/// Anchor schema this library reads and writes.
pub const ANCHOR_SCHEMA: u32 = 1;

/// Comment block that opens an anchor file.
pub const ANCHOR_FILE_HEADER: &'static str = "# This file is generated and managed by Sirno.\n# It records the accepted Sirno Lake baseline for Git.\n\n";

/// Prefix of a fingerprint.
pub const FINGERPRINT_PREFIX: &'static str = "sha256:";

/// Accepted state of one entry.
#[derive(Debug)]
pub struct AnchorEntry {
    /// Fingerprint of the entry.
    pub fingerprint: String,
    /// Fingerprint of the entry's artifact tree, when it owns artifacts.
    pub artifact_fingerprint: Option<String>,
    /// Structural links by field, in field order.
    pub structural: Vec<(String, Vec<EntryAddress>)>,
}

impl AnchorEntry {
    /// An anchor entry record.
    pub fn new(
        fingerprint: String,
        artifact_fingerprint: Option<String>,
        structural: Vec<(String, Vec<EntryAddress>)>,
    ) -> (r: Self)
        ensures
            r.fingerprint == fingerprint,
            r.artifact_fingerprint == artifact_fingerprint,
            r.structural == structural,
    {
        AnchorEntry { fingerprint, artifact_fingerprint, structural }
    }
}

/// Accepted baseline of a lake.
#[derive(Debug)]
pub struct AnchorFile {
    /// Anchor schema.
    pub schema: u32,
    /// Lake path the anchor describes.
    pub lake: String,
    /// Accepted entries keyed by address text, in file order.
    pub entries: Vec<(String, AnchorEntry)>,
}

/// Error raised by anchor checks.
#[derive(Debug)]
pub enum AnchorError {
    /// The schema is not the one this library knows.
    UnsupportedSchema {
        /// Schema found in the file.
        found: u32,
    },
    /// An entry key is not an entry address.
    EntryAddress {
        /// The key.
        id: String,
        /// Why it is not an address.
        source: EntryAddressError,
    },
    /// A fingerprint is not `sha256:` and 64 hexadecimal digits.
    InvalidFingerprint {
        /// Where the fingerprint stands in the file.
        field: String,
        /// The fingerprint.
        value: String,
    },
    /// A structural field name cannot be stored beside the fingerprints.
    InvalidStructuralField(String),
}

impl AnchorError {
    /// Human-readable description.
    pub fn message(&self) -> (r: String)
        ensures
            match self {
                AnchorError::UnsupportedSchema { found } => r@ == "unsupported anchor schema "@
                    + crate::text::decimal(*found as nat) + "; expected 1"@,
                AnchorError::EntryAddress { id, .. } => r@ == "invalid anchor entry address `"@
                    + id@ + "`"@,
                AnchorError::InvalidFingerprint { field, value } => r@
                    == "invalid anchor fingerprint in "@ + field@ + ": "@ + value@,
                AnchorError::InvalidStructuralField(f) => r@ == "invalid anchor structural field `"@
                    + f@ + "`"@,
            },
    {
        let mut out = String::new();
        match self {
            AnchorError::UnsupportedSchema { found } => {
                push_str(&mut out, "unsupported anchor schema ");
                crate::text::push_decimal_u64(&mut out, *found as u64);
                push_str(&mut out, "; expected 1");
            },
            AnchorError::EntryAddress { id, .. } => {
                push_str(&mut out, "invalid anchor entry address `");
                push_str(&mut out, id.as_str());
                push_str(&mut out, "`");
            },
            AnchorError::InvalidFingerprint { field, value } => {
                push_str(&mut out, "invalid anchor fingerprint in ");
                push_str(&mut out, field.as_str());
                push_str(&mut out, ": ");
                push_str(&mut out, value.as_str());
            },
            AnchorError::InvalidStructuralField(f) => {
                push_str(&mut out, "invalid anchor structural field `");
                push_str(&mut out, f.as_str());
                push_str(&mut out, "`");
            },
        }
        out
    }
}

/// A fingerprint: `sha256:` followed by 64 hexadecimal digits.
pub open spec fn valid_fingerprint(v: Seq<char>) -> bool {
    &&& v.len() == 71
    &&& v.take(7) == "sha256:"@
    &&& forall|i: int| 7 <= i < 71 ==> is_hex_digit(#[trigger] v[i])
}

/// Check a fingerprint; `field` says where it stands.
pub fn validate_fingerprint(field: String, value: &str) -> (r: Result<(), AnchorError>)
    ensures
        valid_fingerprint(value@) ==> r is Ok,
        !valid_fingerprint(value@) ==> (r matches Err(AnchorError::InvalidFingerprint { field: f, value: v })
            && f == field && v@ == value@),
{
    let chars = chars_of(value);
    proof {
        reveal_strlit("sha256:");
    }
    let prefix = chars_of(FINGERPRINT_PREFIX);
    assert(prefix@ =~= "sha256:"@);
    if chars.len() != 71 || !crate::text::slice_has_prefix(chars.as_slice(), prefix.as_slice()) {
        proof {
            if chars@.len() == 71 {
                assert(!crate::text::has_prefix(chars@, prefix@));
                assert(chars@.take(7) != "sha256:"@) by {
                    if chars@.take(7) == "sha256:"@ {
                        assert(chars@.subrange(0, 7) =~= chars@.take(7));
                    }
                }
            }
        }
        return Err(AnchorError::InvalidFingerprint { field, value: owned(value) });
    }
    assert(chars@.take(7) =~= chars@.subrange(0, 7));
    let mut i: usize = 7;
    while i < 71
        invariant
            7 <= i <= 71,
            chars@.len() == 71,
            chars@ == value@,
            forall|k: int| 7 <= k < i ==> is_hex_digit(#[trigger] chars@[k]),
        decreases 71 - i,
    {
        let c = chars[i];
        let hex = ('0' <= c && c <= '9') || ('a' <= c && c <= 'f') || ('A' <= c && c <= 'F');
        if !hex {
            return Err(AnchorError::InvalidFingerprint { field, value: owned(value) });
        }
        i = i + 1;
    }
    Ok(())
}

/// A structural field name that fits beside the fingerprints: non-empty, on one line, with
/// no comma, and not one of the fingerprint keys.
pub open spec fn storable_structural_field(f: Seq<char>) -> bool {
    &&& f.len() > 0
    &&& !f.contains('\n')
    &&& !f.contains('\r')
    &&& !f.contains(',')
    &&& f != "fingerprint"@
    &&& f != "artifact_fingerprint"@
}

/// Check a structural field name stored in an anchor entry.
pub fn validate_structural_field(field: &str) -> (r: Result<(), AnchorError>)
    ensures
        storable_structural_field(field@) ==> r is Ok,
        !storable_structural_field(field@) ==> (r matches Err(AnchorError::InvalidStructuralField(f))
            && f@ == field@),
{
    let chars = chars_of(field);
    if chars.len() == 0 || crate::text::slice_has_char(chars.as_slice(), '\n')
        || crate::text::slice_has_char(chars.as_slice(), '\r') || crate::text::slice_has_char(
        chars.as_slice(),
        ',',
    ) || crate::text::str_eq(field, "fingerprint") || crate::text::str_eq(
        field,
        "artifact_fingerprint",
    ) {
        return Err(AnchorError::InvalidStructuralField(owned(field)));
    }
    Ok(())
}

/// The location of an entry's fingerprint in the file.
pub open spec fn fingerprint_field(id: Seq<char>, key: Seq<char>) -> Seq<char> {
    "entries."@ + id + "."@ + key
}

/// The first problem of one anchor entry, in the order the entry is checked.
pub open spec fn anchor_entry_problem(id: Seq<char>, e: AnchorEntry) -> Option<AnchorProblem> {
    if !valid_address(id) {
        Some(AnchorProblem::Address(id))
    } else if !valid_fingerprint(e.fingerprint@) {
        Some(AnchorProblem::Fingerprint(fingerprint_field(id, "fingerprint"@), e.fingerprint@))
    } else if e.artifact_fingerprint matches Some(a) && !valid_fingerprint(a@) {
        Some(
            AnchorProblem::Fingerprint(
                fingerprint_field(id, "artifact_fingerprint"@),
                e.artifact_fingerprint->0@,
            ),
        )
    } else if exists|k: int|
        0 <= k < e.structural@.len() && !storable_structural_field(
            (#[trigger] e.structural@[k]).0@,
        ) {
        Some(AnchorProblem::Field(first_unstorable_field(e.structural@)))
    } else {
        None
    }
}

/// The first structural field name that cannot be stored.
pub open spec fn first_unstorable_field(fs: Seq<(String, Vec<EntryAddress>)>) -> Seq<char>
    decreases fs.len(),
{
    if fs.len() == 0 {
        Seq::empty()
    } else if !storable_structural_field(fs[0].0@) {
        fs[0].0@
    } else {
        first_unstorable_field(fs.drop_first())
    }
}

/// What is wrong with an anchor, as plain values.
pub enum AnchorProblem {
    /// Unsupported schema.
    Schema(u32),
    /// A key that is not an entry address.
    Address(Seq<char>),
    /// A malformed fingerprint: where, and what.
    Fingerprint(Seq<char>, Seq<char>),
    /// A structural field that cannot be stored.
    Field(Seq<char>),
}

/// The first problem among anchor entries, in file order.
pub open spec fn first_entry_problem(es: Seq<(String, AnchorEntry)>) -> Option<AnchorProblem>
    decreases es.len(),
{
    if es.len() == 0 {
        None
    } else {
        match anchor_entry_problem(es[0].0@, es[0].1) {
            Some(p) => Some(p),
            None => first_entry_problem(es.drop_first()),
        }
    }
}

/// The first problem of an anchor: its schema, then its entries in order.
pub open spec fn anchor_problem(a: AnchorFile) -> Option<AnchorProblem> {
    if a.schema != 1 {
        Some(AnchorProblem::Schema(a.schema))
    } else {
        first_entry_problem(a.entries@)
    }
}

/// Whether an error reports a problem.
pub open spec fn reports(e: AnchorError, p: AnchorProblem) -> bool {
    match (e, p) {
        (AnchorError::UnsupportedSchema { found }, AnchorProblem::Schema(s)) => found == s,
        (AnchorError::EntryAddress { id, source }, AnchorProblem::Address(a)) => id@ == a && Err::<
            (),
            EntryAddressError,
        >(source) == address_check(a),
        (AnchorError::InvalidFingerprint { field, value }, AnchorProblem::Fingerprint(f, v)) =>
            field@ == f && value@ == v,
        (AnchorError::InvalidStructuralField(x), AnchorProblem::Field(f)) => x@ == f,
        _ => false,
    }
}

/// Check the structural field names of one entry, in order.
fn validate_fields(fs: &[(String, Vec<EntryAddress>)]) -> (r: Result<(), AnchorError>)
    ensures
        (forall|k: int| 0 <= k < fs@.len() ==> storable_structural_field((#[trigger] fs@[k]).0@))
            ==> r is Ok,
        !(forall|k: int| 0 <= k < fs@.len() ==> storable_structural_field((#[trigger] fs@[k]).0@))
            ==> (r matches Err(AnchorError::InvalidStructuralField(f)) && f@ == first_unstorable_field(
            fs@,
        )),
{
    let mut i: usize = 0;
    assert(fs@.skip(0) =~= fs@);
    while i < fs.len()
        invariant
            i <= fs@.len(),
            forall|k: int| 0 <= k < i ==> storable_structural_field((#[trigger] fs@[k]).0@),
            first_unstorable_field(fs@) == first_unstorable_field(fs@.skip(i as int)),
        decreases fs@.len() - i,
    {
        assert(fs@.skip(i as int)[0] == fs@[i as int]);
        assert(fs@.skip(i as int).drop_first() =~= fs@.skip(i + 1));
        validate_structural_field(fs[i].0.as_str())?;
        i = i + 1;
    }
    Ok(())
}

/// Build the location text of a fingerprint.
fn fingerprint_location(id: &str, key: &str) -> (r: String)
    ensures
        r@ == fingerprint_field(id@, key@),
{
    let mut out = String::new();
    push_str(&mut out, "entries.");
    push_str(&mut out, id);
    push_str(&mut out, ".");
    push_str(&mut out, key);
    out
}

/// Check one anchor entry.
fn validate_entry(id: &str, entry: &AnchorEntry) -> (r: Result<(), AnchorError>)
    ensures
        match anchor_entry_problem(id@, *entry) {
            None => r is Ok,
            Some(p) => r matches Err(e) && reports(e, p),
        },
{
    match EntryAddress::new(id) {
        Ok(_) => {},
        Err(source) => {
            return Err(AnchorError::EntryAddress { id: owned(id), source });
        },
    }
    validate_fingerprint(fingerprint_location(id, "fingerprint"), entry.fingerprint.as_str())?;
    match &entry.artifact_fingerprint {
        Some(a) => {
            validate_fingerprint(fingerprint_location(id, "artifact_fingerprint"), a.as_str())?;
        },
        None => {},
    }
    validate_fields(entry.structural.as_slice())
}

impl AnchorFile {
    /// Check the schema, then each entry in file order: its address, its fingerprints and
    /// its structural field names.
    pub fn validate(&self) -> (r: Result<(), AnchorError>)
        ensures
            match anchor_problem(*self) {
                None => r is Ok,
                Some(p) => r matches Err(e) && reports(e, p),
            },
    {
        if self.schema != ANCHOR_SCHEMA {
            return Err(AnchorError::UnsupportedSchema { found: self.schema });
        }
        let mut i: usize = 0;
        assert(self.entries@.skip(0) =~= self.entries@);
        while i < self.entries.len()
            invariant
                i <= self.entries@.len(),
                self.schema == 1,
                anchor_problem(*self) == first_entry_problem(self.entries@.skip(i as int)),
            decreases self.entries@.len() - i,
        {
            assert(self.entries@.skip(i as int)[0] == self.entries@[i as int]);
            assert(self.entries@.skip(i as int).drop_first() =~= self.entries@.skip(i + 1));
            let (id, entry) = &self.entries[i];
            validate_entry(id.as_str(), entry)?;
            i = i + 1;
        }
        Ok(())
    }
}

/// The fingerprint of entry source bytes.
pub open spec fn entry_fingerprint_text(bytes: Seq<u8>) -> Seq<char> {
    "sha256:"@ + hex_text(sha256_digest(crate::charm::utf8("sirno-entry-v1\n"@) + bytes))
}

/// The fingerprint of entry source bytes: `sha256:` and the hexadecimal SHA-256 digest of
/// a version line followed by the bytes.
pub fn sha256_fingerprint(bytes: &[u8]) -> (r: String)
    ensures
        r@ == entry_fingerprint_text(bytes@),
{
    let mut input: Vec<u8> = Vec::new();
    let head = "sirno-entry-v1\n".as_bytes();
    let mut i: usize = 0;
    while i < head.len()
        invariant
            i <= head@.len(),
            input@ == head@.take(i as int),
        decreases head@.len() - i,
    {
        input.push(head[i]);
        i = i + 1;
        assert(input@ =~= head@.take(i as int));
    }
    assert(head@.take(i as int) =~= head@);
    let mut j: usize = 0;
    while j < bytes.len()
        invariant
            j <= bytes@.len(),
            input@ == head@ + bytes@.take(j as int),
        decreases bytes@.len() - j,
    {
        input.push(bytes[j]);
        j = j + 1;
        assert(input@ =~= head@ + bytes@.take(j as int));
    }
    assert(bytes@.take(j as int) =~= bytes@);
    let digest = sha256(input.as_slice());
    let mut out = String::new();
    push_str(&mut out, FINGERPRINT_PREFIX);
    let hex = hex_digest(digest.as_slice());
    push_str(&mut out, hex.as_str());
    out
}

/// The items of `s` at path `p`, in order.
pub open spec fn at_path(s: Seq<(Seq<char>, Seq<u8>)>, p: Seq<char>) -> Seq<(Seq<char>, Seq<u8>)>
    decreases s.len(),
{
    if s.len() == 0 {
        Seq::empty()
    } else {
        let r = at_path(s.drop_last(), p);
        if s.last().0 == p {
            r.push(s.last())
        } else {
            r
        }
    }
}

/// `r` holds the items of `xs` ordered by path text; items at one path keep their order.
pub open spec fn stably_sorted_by_path(xs: Seq<(Seq<char>, Seq<u8>)>, r: Seq<(Seq<char>, Seq<u8>)>) -> bool {
    &&& forall|i: int, j: int| 0 <= i < j < r.len() ==> !text_less(#[trigger] r[j].0, #[trigger] r[i].0)
    &&& forall|p: Seq<char>| #[trigger] at_path(r, p) == at_path(xs, p)
}

proof fn lemma_at_path_concat(a: Seq<(Seq<char>, Seq<u8>)>, b: Seq<(Seq<char>, Seq<u8>)>, p: Seq<char>)
    ensures
        at_path(a + b, p) == at_path(a, p) + at_path(b, p),
    decreases b.len(),
{
    if b.len() == 0 {
        assert(a + b =~= a);
        assert(at_path(b, p) =~= Seq::<(Seq<char>, Seq<u8>)>::empty());
        assert(at_path(a, p) + at_path(b, p) =~= at_path(a, p));
    } else {
        lemma_at_path_concat(a, b.drop_last(), p);
        assert((a + b).drop_last() =~= a + b.drop_last());
        assert((a + b).last() == b.last());
        if b.last().0 == p {
            assert(at_path(a, p) + at_path(b, p) =~= (at_path(a, p) + at_path(b.drop_last(), p)).push(b.last()));
        }
    }
}

proof fn lemma_at_path_absent(s: Seq<(Seq<char>, Seq<u8>)>, p: Seq<char>)
    requires
        forall|i: int| 0 <= i < s.len() ==> (#[trigger] s[i]).0 != p,
    ensures
        at_path(s, p) == Seq::<(Seq<char>, Seq<u8>)>::empty(),
    decreases s.len(),
{
    if s.len() > 0 {
        lemma_at_path_absent(s.drop_last(), p);
        assert(s.last() == s[s.len() - 1]);
    }
}

/// Inserting an item after every item at or before its path keeps the sort stable.
proof fn lemma_stable_insert(xs: Seq<(Seq<char>, Seq<u8>)>, j: int, r: Seq<(Seq<char>, Seq<u8>)>, q: int)
    requires
        0 <= j < xs.len(),
        stably_sorted_by_path(xs.take(j), r),
        0 <= q <= r.len(),
        forall|i: int| 0 <= i < q ==> !text_less(xs[j].0, (#[trigger] r[i]).0),
        q < r.len() ==> text_less(xs[j].0, r[q].0),
    ensures
        stably_sorted_by_path(xs.take(j + 1), r.insert(q, xs[j])),
{
    let x = xs[j];
    let n = r.insert(q, x);
    let t1 = xs.take(j + 1);
    assert(t1.drop_last() =~= xs.take(j));
    assert(t1.last() == x);
    // Every item from q on sorts after x.
    assert forall|i: int| q <= i < r.len() implies text_less(x.0, #[trigger] r[i].0) by {
        if i > q {
            assert(!text_less(r[i].0, r[q].0));
            lemma_text_less_total(r[q].0, r[i].0);
            if text_less(r[q].0, r[i].0) {
                lemma_text_less_transitive(x.0, r[q].0, r[i].0);
            }
        }
    }
    assert forall|a: int, b: int| 0 <= a < b < n.len() implies !text_less(#[trigger] n[b].0, #[trigger] n[a].0) by {
        if b < q {
            assert(n[a] == r[a] && n[b] == r[b]);
        } else if b == q {
            assert(n[a] == r[a]);
        } else if a < q {
            assert(n[a] == r[a] && n[b] == r[b - 1]);
            assert(text_less(x.0, r[b - 1].0));
            assert(!text_less(x.0, r[a].0));
            lemma_text_less_total(r[a].0, x.0);
            if text_less(r[b - 1].0, r[a].0) {
                if r[a].0 == x.0 {
                    lemma_text_less_total(r[b - 1].0, x.0);
                    crate::address::lemma_text_less_asymmetric(x.0, r[b - 1].0);
                } else {
                    lemma_text_less_transitive(r[b - 1].0, r[a].0, x.0);
                    crate::address::lemma_text_less_asymmetric(x.0, r[b - 1].0);
                }
            }
        } else if a == q {
            assert(n[b] == r[b - 1]);
            assert(text_less(x.0, r[b - 1].0));
            crate::address::lemma_text_less_asymmetric(x.0, r[b - 1].0);
        } else {
            assert(n[a] == r[a - 1] && n[b] == r[b - 1]);
        }
    }
    assert forall|p: Seq<char>| #[trigger] at_path(n, p) == at_path(t1, p) by {
        let front = r.take(q);
        let back = r.skip(q);
        assert(r =~= front + back);
        assert(n =~= front + (seq![x] + back));
        lemma_at_path_concat(front, seq![x] + back, p);
        lemma_at_path_concat(seq![x], back, p);
        lemma_at_path_concat(front, back, p);
        let one = seq![x];
        assert(one.drop_last() =~= Seq::<(Seq<char>, Seq<u8>)>::empty());
        assert(one.last() == x);
        assert(at_path(Seq::<(Seq<char>, Seq<u8>)>::empty(), p) == Seq::<(Seq<char>, Seq<u8>)>::empty());
        assert(at_path(one, p) == if x.0 == p { Seq::<(Seq<char>, Seq<u8>)>::empty().push(x) } else { Seq::<(Seq<char>, Seq<u8>)>::empty() });
        assert(at_path(n, p) == at_path(front, p) + (at_path(one, p) + at_path(back, p)));
        assert(at_path(r, p) == at_path(front, p) + at_path(back, p));
        assert(at_path(r, p) == at_path(xs.take(j), p));
        if x.0 == p {
            assert forall|i: int| 0 <= i < back.len() implies (#[trigger] back[i]).0 != p by {
                assert(back[i] == r[q + i]);
                lemma_text_less_irreflexive(p);
            }
            lemma_at_path_absent(back, p);
            assert(at_path(n, p) =~= at_path(r, p).push(x));
        } else {
            assert(at_path(n, p) =~= at_path(r, p));
        }
    }
}

/// Copy of a byte vector.
fn copy_bytes(bytes: &Vec<u8>) -> (r: Vec<u8>)
    ensures
        r@ == bytes@,
{
    let mut out: Vec<u8> = Vec::new();
    let mut i: usize = 0;
    while i < bytes.len()
        invariant
            i <= bytes@.len(),
            out@ == bytes@.take(i as int),
        decreases bytes@.len() - i,
    {
        out.push(bytes[i]);
        i = i + 1;
        assert(out@ =~= bytes@.take(i as int));
    }
    assert(bytes@.take(i as int) =~= bytes@);
    out
}

/// The artifacts as path and content, ordered by path; artifacts at one path keep their order.
fn sort_by_path(artifacts: &[EntryArtifact]) -> (r: Vec<(String, Vec<u8>)>)
    ensures
        stably_sorted_by_path(
            artifacts_view(artifacts@),
            r@.map_values(|item: (String, Vec<u8>)| (item.0@, item.1@)),
        ),
{
    let ghost xs = artifacts_view(artifacts@);
    let mut out: Vec<(String, Vec<u8>)> = Vec::new();
    let mut j: usize = 0;
    assert(xs.take(0) =~= Seq::<(Seq<char>, Seq<u8>)>::empty());
    assert(out@.map_values(|item: (String, Vec<u8>)| (item.0@, item.1@)) =~= Seq::<(Seq<char>, Seq<u8>)>::empty());
    while j < artifacts.len()
        invariant
            j <= xs.len(),
            xs == artifacts_view(artifacts@),
            stably_sorted_by_path(xs.take(j as int), out@.map_values(|item: (String, Vec<u8>)| (item.0@, item.1@))),
        decreases xs.len() - j,
    {
        let ghost rv = out@.map_values(|item: (String, Vec<u8>)| (item.0@, item.1@));
        let a = &artifacts[j];
        assert(xs[j as int] == (a.path@, a.content@));
        let key = chars_of(a.path.as_str());
        let mut q: usize = 0;
        while q < out.len() && !matches!(crate::address::compare_texts(key.as_slice(), chars_of(out[q].0.as_str()).as_slice()), crate::address::Order::Less)
            invariant
                q <= out@.len(),
                rv == out@.map_values(|item: (String, Vec<u8>)| (item.0@, item.1@)),
                key@ == a.path@,
                forall|i: int| 0 <= i < q ==> !text_less(a.path@, (#[trigger] rv[i]).0),
            decreases out@.len() - q,
        {
            assert(rv[q as int].0 == out@[q as int].0@);
            q = q + 1;
        }
        proof {
            if q < out@.len() {
                assert(rv[q as int].0 == out@[q as int].0@);
            }
            lemma_stable_insert(xs, j as int, rv, q as int);
        }
        let item = (owned(a.path.as_str()), copy_bytes(&a.content));
        out.insert(q, item);
        assert(out@.map_values(|item: (String, Vec<u8>)| (item.0@, item.1@)) =~= rv.insert(q as int, xs[j as int]));
        j = j + 1;
    }
    assert(xs.take(j as int) =~= xs);
    out
}

proof fn lemma_at_path_present(s: Seq<(Seq<char>, Seq<u8>)>, i: int)
    requires
        0 <= i < s.len(),
    ensures
        at_path(s, s[i].0).len() > 0,
    decreases s.len(),
{
    if i < s.len() - 1 {
        lemma_at_path_present(s.drop_last(), i);
        assert(s.drop_last()[i] == s[i]);
    }
}

/// Two path-sorted lists with the same items at every path are equal.
proof fn lemma_path_sorted_unique(r1: Seq<(Seq<char>, Seq<u8>)>, r2: Seq<(Seq<char>, Seq<u8>)>)
    requires
        forall|i: int, j: int| 0 <= i < j < r1.len() ==> !text_less(#[trigger] r1[j].0, #[trigger] r1[i].0),
        forall|i: int, j: int| 0 <= i < j < r2.len() ==> !text_less(#[trigger] r2[j].0, #[trigger] r2[i].0),
        forall|p: Seq<char>| #[trigger] at_path(r1, p) == at_path(r2, p),
    ensures
        r1 == r2,
    decreases r1.len() + r2.len(),
{
    if r1.len() == 0 {
        if r2.len() > 0 {
            lemma_at_path_present(r2, r2.len() - 1);
            assert(at_path(r1, r2[r2.len() - 1].0) == at_path(r2, r2[r2.len() - 1].0));
        }
        assert(r1 =~= r2);
    } else if r2.len() == 0 {
        lemma_at_path_present(r1, r1.len() - 1);
        assert(at_path(r1, r1[r1.len() - 1].0) == at_path(r2, r1[r1.len() - 1].0));
    } else {
        let a = r1.last();
        let b = r2.last();
        // The last path of each list is the greatest, and each occurs in the other list.
        lemma_at_path_present(r2, r2.len() - 1);
        assert(at_path(r1, b.0) == at_path(r2, b.0));
        let i = choose|i: int| 0 <= i < r1.len() && r1[i].0 == b.0;
        assert(exists|i: int| 0 <= i < r1.len() && r1[i].0 == b.0) by {
            if forall|i: int| 0 <= i < r1.len() ==> (#[trigger] r1[i]).0 != b.0 {
                lemma_at_path_absent(r1, b.0);
            }
        }
        lemma_at_path_present(r1, r1.len() - 1);
        assert(at_path(r1, a.0) == at_path(r2, a.0));
        let k = choose|k: int| 0 <= k < r2.len() && r2[k].0 == a.0;
        assert(exists|k: int| 0 <= k < r2.len() && r2[k].0 == a.0) by {
            if forall|k: int| 0 <= k < r2.len() ==> (#[trigger] r2[k]).0 != a.0 {
                lemma_at_path_absent(r2, a.0);
            }
        }
        assert(!text_less(a.0, b.0)) by {
            if i < r1.len() - 1 {
                assert(!text_less(r1[r1.len() - 1].0, r1[i].0));
            } else {
                lemma_text_less_irreflexive(a.0);
            }
        }
        assert(!text_less(b.0, a.0)) by {
            if k < r2.len() - 1 {
                assert(!text_less(r2[r2.len() - 1].0, r2[k].0));
            } else {
                lemma_text_less_irreflexive(b.0);
            }
        }
        lemma_text_less_total(a.0, b.0);
        assert(a.0 == b.0);
        assert(at_path(r1, a.0).last() == a);
        assert(at_path(r2, a.0).last() == b);
        assert(a == b);
        let d1 = r1.drop_last();
        let d2 = r2.drop_last();
        assert forall|p: Seq<char>| #[trigger] at_path(d1, p) == at_path(d2, p) by {
            assert(at_path(r1, p) == at_path(r2, p));
            if p == a.0 {
                assert(at_path(d1, p) =~= at_path(r1, p).drop_last());
                assert(at_path(d2, p) =~= at_path(r2, p).drop_last());
            }
        }
        assert forall|i: int, j: int| 0 <= i < j < d1.len() implies !text_less(#[trigger] d1[j].0, #[trigger] d1[i].0) by {
            assert(d1[j] == r1[j] && d1[i] == r1[i]);
        }
        assert forall|i: int, j: int| 0 <= i < j < d2.len() implies !text_less(#[trigger] d2[j].0, #[trigger] d2[i].0) by {
            assert(d2[j] == r2[j] && d2[i] == r2[i]);
        }
        lemma_path_sorted_unique(d1, d2);
        assert(r1 =~= d1.push(a));
        assert(r2 =~= d2.push(b));
    }
}

/// The path order of artifacts is determined: there is one stable path order of a list.
pub proof fn lemma_stable_path_order_unique(
    xs: Seq<(Seq<char>, Seq<u8>)>,
    r1: Seq<(Seq<char>, Seq<u8>)>,
    r2: Seq<(Seq<char>, Seq<u8>)>,
)
    requires
        stably_sorted_by_path(xs, r1),
        stably_sorted_by_path(xs, r2),
    ensures
        r1 == r2,
{
    assert forall|p: Seq<char>| #[trigger] at_path(r1, p) == at_path(r2, p) by {
        assert(at_path(r1, p) == at_path(xs, p));
        assert(at_path(r2, p) == at_path(xs, p));
    }
    lemma_path_sorted_unique(r1, r2);
}

/// The fingerprint of an artifact tree depends only on the contents at each path, in their
/// order: two artifact lists with the same items at every path, whatever the order of
/// items at different paths, have one tree text.
pub proof fn law_tree_fingerprint_ignores_order_across_paths(
    xs: Seq<(Seq<char>, Seq<u8>)>,
    ys: Seq<(Seq<char>, Seq<u8>)>,
    rx: Seq<(Seq<char>, Seq<u8>)>,
    ry: Seq<(Seq<char>, Seq<u8>)>,
)
    requires
        forall|p: Seq<char>| #[trigger] at_path(xs, p) == at_path(ys, p),
        stably_sorted_by_path(xs, rx),
        stably_sorted_by_path(ys, ry),
    ensures
        artifact_tree_text(rx) == artifact_tree_text(ry),
{
    assert forall|p: Seq<char>| #[trigger] at_path(rx, p) == at_path(ry, p) by {
        assert(at_path(rx, p) == at_path(xs, p));
        assert(at_path(ry, p) == at_path(ys, p));
        assert(at_path(xs, p) == at_path(ys, p));
    }
    lemma_path_sorted_unique(rx, ry);
}

/// The fingerprint of an artifact tree over its artifacts sorted by path.
pub open spec fn artifact_tree_text(sorted: Seq<(Seq<char>, Seq<u8>)>) -> Seq<char> {
    "sha256:"@ + hex_text(sha256_digest(utf8("sirno-artifact-tree-v1\n"@) + artifact_records(sorted)))
}

/// Fingerprint of one owner's artifact tree: `sha256:` and the hexadecimal SHA-256 digest
/// of a version line and, for each artifact in path order, its path, length and content.
#[verifier::spinoff_prover]
pub fn artifact_tree_fingerprint(artifacts: &[EntryArtifact]) -> (r: String)
    ensures
        exists|sorted: Seq<(Seq<char>, Seq<u8>)>|
            stably_sorted_by_path(artifacts_view(artifacts@), sorted) && r@ == artifact_tree_text(
                sorted,
            ),
        forall|sorted: Seq<(Seq<char>, Seq<u8>)>|
            stably_sorted_by_path(artifacts_view(artifacts@), sorted) ==> r@ == #[trigger] artifact_tree_text(
                sorted,
            ),
{
    let sorted = sort_by_path(artifacts);
    let ghost sv = sorted@.map_values(|item: (String, Vec<u8>)| (item.0@, item.1@));
    let mut input: Vec<u8> = Vec::new();
    let head = "sirno-artifact-tree-v1\n".as_bytes();
    let mut k: usize = 0;
    while k < head.len()
        invariant
            k <= head@.len(),
            input@ == head@.take(k as int),
        decreases head@.len() - k,
    {
        input.push(head[k]);
        k = k + 1;
        assert(input@ =~= head@.take(k as int));
    }
    assert(head@.take(k as int) =~= head@);
    let mut i: usize = 0;
    assert(sv.take(0) =~= Seq::<(Seq<char>, Seq<u8>)>::empty());
    while i < sorted.len()
        invariant
            i <= sv.len(),
            sv == sorted@.map_values(|item: (String, Vec<u8>)| (item.0@, item.1@)),
            input@ == head@ + artifact_records(sv.take(i as int)),
        decreases sv.len() - i,
    {
        let item = &sorted[i];
        assert(sv.take(i + 1).drop_last() =~= sv.take(i as int));
        assert(sv.take(i + 1).last() == (item.0@, item.1@));
        let path_bytes = item.0.as_str().as_bytes();
        let mut b: usize = 0;
        let ghost before = input@;
        while b < path_bytes.len()
            invariant
                b <= path_bytes@.len(),
                input@ == before + path_bytes@.take(b as int),
            decreases path_bytes@.len() - b,
        {
            input.push(path_bytes[b]);
            b = b + 1;
            assert(input@ =~= before + path_bytes@.take(b as int));
        }
        assert(path_bytes@.take(b as int) =~= path_bytes@);
        input.push(0u8);
        let len_text = decimal_string(item.1.len());
        let len_bytes = len_text.as_str().as_bytes();
        let ghost before_len = input@;
        let mut c: usize = 0;
        while c < len_bytes.len()
            invariant
                c <= len_bytes@.len(),
                input@ == before_len + len_bytes@.take(c as int),
            decreases len_bytes@.len() - c,
        {
            input.push(len_bytes[c]);
            c = c + 1;
            assert(input@ =~= before_len + len_bytes@.take(c as int));
        }
        assert(len_bytes@.take(c as int) =~= len_bytes@);
        input.push(0u8);
        let ghost before_content = input@;
        let mut d: usize = 0;
        while d < item.1.len()
            invariant
                d <= item.1@.len(),
                input@ == before_content + item.1@.take(d as int),
            decreases item.1@.len() - d,
        {
            input.push(item.1[d]);
            d = d + 1;
            assert(input@ =~= before_content + item.1@.take(d as int));
        }
        assert(item.1@.take(d as int) =~= item.1@);
        input.push(10u8);
        i = i + 1;
        assert(input@ =~= head@ + artifact_records(sv.take(i as int)));
    }
    assert(sv.take(i as int) =~= sv);
    let digest = sha256(input.as_slice());
    let mut out = String::new();
    push_str(&mut out, FINGERPRINT_PREFIX);
    let hex = hex_digest(digest.as_slice());
    push_str(&mut out, hex.as_str());
    proof {
        reveal_strlit("sirno-artifact-tree-v1\n");
        assert(head@ == utf8("sirno-artifact-tree-v1\n"@));
        assert(out@ == artifact_tree_text(sv));
        assert forall|other: Seq<(Seq<char>, Seq<u8>)>|
            stably_sorted_by_path(artifacts_view(artifacts@), other) implies out@ == #[trigger] artifact_tree_text(
                other,
            ) by {
            lemma_stable_path_order_unique(artifacts_view(artifacts@), sv, other);
        }
    }
    out
}


/// Components of the anchor path that belongs to a config file: `.sirno/anchor.toml` in
/// the config's directory.
pub open spec fn anchor_path_parts(config_path: Seq<char>) -> Seq<Seq<char>> {
    let dir = match parent_parts(path_components(config_path)) {
        Some(q) => q,
        None => seq![cur_dir()],
    };
    dir.push(".sirno"@).push("anchor.toml"@)
}

/// The directory of a path, or the current directory where it has no parent.
fn dir_of(parts: &Vec<Vec<char>>) -> (r: Vec<Vec<char>>)
    ensures
        parts_view(r@) == match parent_parts(parts_view(parts@)) {
            Some(q) => q,
            None => seq![cur_dir()],
        },
{
    match parent_of_parts(parts) {
        Some(q) => q,
        None => {
            let mut v: Vec<Vec<char>> = Vec::new();
            let dot = vec!['.'];
            assert(dot@ =~= cur_dir());
            push_part(&mut v, dot);
            assert(parts_view(v@) =~= seq![cur_dir()]);
            v
        },
    }
}

impl AnchorFile {
    /// The anchor path that belongs to a config file.
    pub fn path_for_config(config_path: &str) -> (r: String)
        ensures
            r@ == render(anchor_path_parts(config_path@)),
    {
        let config = components_of(config_path);
        let mut parts = dir_of(&config);
        let control = chars_of(SIRNO_CONTROL_DIR_NAME);
        let name = chars_of(ANCHOR_FILE_NAME);
        proof {
            reveal_strlit(".sirno");
            reveal_strlit("anchor.toml");
        }
        push_part(&mut parts, control);
        push_part(&mut parts, name);
        render_parts(&parts)
    }

    /// The text of the anchor file around its TOML rendering `body`: the header comment,
    /// then the body. The anchor is checked first, and a problem is returned instead.
    pub fn framed_toml(&self, body: &str) -> (r: Result<String, AnchorError>)
        ensures
            match anchor_problem(*self) {
                None => r matches Ok(t) && t@ == ANCHOR_FILE_HEADER@ + body@,
                Some(p) => r matches Err(e) && reports(e, p),
            },
    {
        self.validate()?;
        let mut out = String::new();
        push_str(&mut out, ANCHOR_FILE_HEADER);
        push_str(&mut out, body);
        Ok(out)
    }
}

/// Components of the temporary file an anchor is first written to: a hidden sibling named
/// after the anchor file, the process id and a nonce.
pub open spec fn temporary_parts(path: Seq<char>, pid: nat, nonce: nat) -> Seq<Seq<char>> {
    let cs = path_components(path);
    let dir = match parent_parts(cs) {
        Some(q) => q,
        None => seq![cur_dir()],
    };
    dir.push("."@ + file_label(cs, "anchor.toml"@) + "."@ + decimal(pid) + "."@ + decimal(nonce) + ".tmp"@)
}

/// Why writing an anchor file failed.
#[derive(Debug)]
pub enum AnchorWriteError {
    /// The anchor directory could not be created.
    CreateDirectory { path: String, error: String },
    /// The temporary file could not be created.
    CreateTemporary { path: String, error: String },
    /// The temporary file could not be written or flushed to disk.
    WriteTemporary { path: String, error: String },
    /// The temporary file could not replace the anchor file.
    Replace { path: String, temporary_path: String, error: String },
}

/// Model of an anchor write error, over texts.
pub enum AnchorWriteErrorView {
    CreateDirectory(Seq<char>, Seq<char>),
    CreateTemporary(Seq<char>, Seq<char>),
    WriteTemporary(Seq<char>, Seq<char>),
    Replace(Seq<char>, Seq<char>, Seq<char>),
}

impl View for AnchorWriteError {
    type V = AnchorWriteErrorView;

    open spec fn view(&self) -> AnchorWriteErrorView {
        match self {
            AnchorWriteError::CreateDirectory { path, error } => AnchorWriteErrorView::CreateDirectory(path@, error@),
            AnchorWriteError::CreateTemporary { path, error } => AnchorWriteErrorView::CreateTemporary(path@, error@),
            AnchorWriteError::WriteTemporary { path, error } => AnchorWriteErrorView::WriteTemporary(path@, error@),
            AnchorWriteError::Replace { path, temporary_path, error } => AnchorWriteErrorView::Replace(
                path@,
                temporary_path@,
                error@,
            ),
        }
    }
}

impl AnchorWriteError {
    /// Human-readable description; the underlying error is [`AnchorWriteError::cause`].
    pub fn message(&self) -> (r: String)
        ensures
            r@ == match self@ {
                AnchorWriteErrorView::CreateDirectory(p, _) => "failed to create anchor directory "@ + p,
                AnchorWriteErrorView::CreateTemporary(p, _) => "failed to create temporary anchor file "@ + p,
                AnchorWriteErrorView::WriteTemporary(p, _) => "failed to write temporary anchor file "@ + p,
                AnchorWriteErrorView::Replace(p, t, _) => "failed to replace anchor file "@ + p + " from "@ + t,
            },
    {
        let mut out = String::new();
        match self {
            AnchorWriteError::CreateDirectory { path, .. } => {
                push_str(&mut out, "failed to create anchor directory ");
                push_str(&mut out, path.as_str());
            },
            AnchorWriteError::CreateTemporary { path, .. } => {
                push_str(&mut out, "failed to create temporary anchor file ");
                push_str(&mut out, path.as_str());
            },
            AnchorWriteError::WriteTemporary { path, .. } => {
                push_str(&mut out, "failed to write temporary anchor file ");
                push_str(&mut out, path.as_str());
            },
            AnchorWriteError::Replace { path, temporary_path, .. } => {
                push_str(&mut out, "failed to replace anchor file ");
                push_str(&mut out, path.as_str());
                push_str(&mut out, " from ");
                push_str(&mut out, temporary_path.as_str());
            },
        }
        out
    }

    /// The underlying error text.
    pub fn cause(&self) -> (r: &str)
        ensures
            r@ == match self@ {
                AnchorWriteErrorView::CreateDirectory(_, e) => e,
                AnchorWriteErrorView::CreateTemporary(_, e) => e,
                AnchorWriteErrorView::WriteTemporary(_, e) => e,
                AnchorWriteErrorView::Replace(_, _, e) => e,
            },
    {
        match self {
            AnchorWriteError::CreateDirectory { error, .. } => error.as_str(),
            AnchorWriteError::CreateTemporary { error, .. } => error.as_str(),
            AnchorWriteError::WriteTemporary { error, .. } => error.as_str(),
            AnchorWriteError::Replace { error, .. } => error.as_str(),
        }
    }
}

/// What the file system reported for the last operation of a write.
pub enum WriteEvent {
    /// The operation succeeded.
    Succeeded,
    /// The operation failed with this error text.
    Failed(String),
}

/// The next operation of an anchor write.
#[derive(Debug)]
pub enum WriteAction {
    /// Create a directory and its missing parents.
    CreateDirs(String),
    /// Create a new file that must not exist yet, and keep it open.
    CreateNew(String),
    /// Write all of the anchor text to the open file.
    WriteContents,
    /// Flush the open file to disk.
    Sync,
    /// Close the open file and rename the first path to the second.
    Rename(String, String),
    /// Close the open file, if any, and remove a file; its outcome does not matter.
    RemoveFile(String),
    /// The write is over.
    Finish(Result<(), AnchorWriteError>),
}

/// Model of a write operation, over texts.
pub enum WriteStep {
    CreateDirs(Seq<char>),
    CreateNew(Seq<char>),
    WriteContents,
    Sync,
    Rename(Seq<char>, Seq<char>),
    RemoveFile(Seq<char>),
    Finish(Result<(), AnchorWriteErrorView>),
}

impl View for WriteAction {
    type V = WriteStep;

    open spec fn view(&self) -> WriteStep {
        match self {
            WriteAction::CreateDirs(p) => WriteStep::CreateDirs(p@),
            WriteAction::CreateNew(p) => WriteStep::CreateNew(p@),
            WriteAction::WriteContents => WriteStep::WriteContents,
            WriteAction::Sync => WriteStep::Sync,
            WriteAction::Rename(a, b) => WriteStep::Rename(a@, b@),
            WriteAction::RemoveFile(p) => WriteStep::RemoveFile(p@),
            WriteAction::Finish(r) => WriteStep::Finish(
                match r {
                    Ok(()) => Ok(()),
                    Err(e) => Err(e@),
                },
            ),
        }
    }
}

/// Where an anchor write stands.
pub enum WritePhase {
    /// Nothing has happened yet.
    Begin,
    /// The anchor directory is being created.
    Directory,
    /// The temporary file is being created.
    Create,
    /// The text is being written.
    Write,
    /// The file is being flushed.
    Sync,
    /// The temporary file is replacing the anchor file.
    Replace,
    /// After a failed write (or, where `replacing`, a failed replace) with `error`, the
    /// temporary file is being removed.
    Discard { replacing: bool, error: String },
    /// The write is over.
    Done,
}

/// A planned anchor write: the anchor path, and the texts derived from it.
pub struct WritePlan {
    pub path: Seq<char>,
    pub temporary: Seq<char>,
}

/// Text of the anchor directory, where the path has a parent.
pub open spec fn directory_text(p: WritePlan) -> Option<Seq<char>> {
    match parent_parts(path_components(p.path)) {
        Some(q) => Some(render(q)),
        None => None,
    }
}

/// The transition of an anchor write.
pub open spec fn write_next(p: WritePlan, phase: WritePhase, ev: WriteEvent) -> (WritePhase, WriteStep) {
    match phase {
        WritePhase::Begin => match directory_text(p) {
            Some(d) => (WritePhase::Directory, WriteStep::CreateDirs(d)),
            None => (WritePhase::Create, WriteStep::CreateNew(p.temporary)),
        },
        WritePhase::Directory => match ev {
            WriteEvent::Failed(e) => (
                WritePhase::Done,
                WriteStep::Finish(Err(AnchorWriteErrorView::CreateDirectory(directory_text(p).unwrap_or(Seq::empty()), e@))),
            ),
            WriteEvent::Succeeded => (WritePhase::Create, WriteStep::CreateNew(p.temporary)),
        },
        WritePhase::Create => match ev {
            WriteEvent::Failed(e) => (
                WritePhase::Done,
                WriteStep::Finish(Err(AnchorWriteErrorView::CreateTemporary(p.temporary, e@))),
            ),
            WriteEvent::Succeeded => (WritePhase::Write, WriteStep::WriteContents),
        },
        WritePhase::Write => match ev {
            WriteEvent::Failed(e) => (
                WritePhase::Discard { replacing: false, error: e },
                WriteStep::RemoveFile(p.temporary),
            ),
            WriteEvent::Succeeded => (WritePhase::Sync, WriteStep::Sync),
        },
        WritePhase::Sync => match ev {
            WriteEvent::Failed(e) => (
                WritePhase::Discard { replacing: false, error: e },
                WriteStep::RemoveFile(p.temporary),
            ),
            WriteEvent::Succeeded => (WritePhase::Replace, WriteStep::Rename(p.temporary, p.path)),
        },
        WritePhase::Replace => match ev {
            WriteEvent::Failed(e) => (
                WritePhase::Discard { replacing: true, error: e },
                WriteStep::RemoveFile(p.temporary),
            ),
            WriteEvent::Succeeded => (WritePhase::Done, WriteStep::Finish(Ok(()))),
        },
        WritePhase::Discard { replacing, error } => (
            WritePhase::Done,
            WriteStep::Finish(
                Err(
                    if replacing {
                        AnchorWriteErrorView::Replace(p.path, p.temporary, error@)
                    } else {
                        AnchorWriteErrorView::WriteTemporary(p.temporary, error@)
                    },
                ),
            ),
        ),
        WritePhase::Done => (WritePhase::Done, WriteStep::Finish(Ok(()))),
    }
}

/// An atomic write of an anchor file: the text goes to a new temporary sibling, is flushed,
/// and then replaces the anchor file; a temporary file left by a failure is removed.
pub struct AnchorWrite {
    path: String,
    temporary: String,
    directory: Option<String>,
    phase: WritePhase,
}

impl AnchorWrite {
    /// The planned write.
    pub closed spec fn plan(&self) -> WritePlan {
        WritePlan { path: self.path@, temporary: self.temporary@ }
    }

    /// Where the write stands.
    pub closed spec fn phase(&self) -> WritePhase {
        self.phase
    }

    /// The directory text agrees with the path.
    pub closed spec fn wf(&self) -> bool {
        match self.directory {
            Some(d) => directory_text(self.plan()) == Some(d@),
            None => directory_text(self.plan()) is None,
        }
    }

    /// Plan the write of the anchor file at `path`; the temporary name carries `pid` and
    /// `nonce`.
    pub fn new(path: &str, pid: u32, nonce: u64) -> (r: Self)
        ensures
            r.wf(),
            r.plan().path == path@,
            r.plan().temporary == render(temporary_parts(path@, pid as nat, nonce as nat)),
            r.phase() is Begin,
    {
        let parts = components_of(path);
        let directory = match parent_of_parts(&parts) {
            Some(q) => Some(render_parts(&q)),
            None => None,
        };
        let mut name = String::new();
        push_str(&mut name, ".");
        let fallback = ANCHOR_FILE_NAME;
        proof {
            reveal_strlit("anchor.toml");
        }
        let label = file_label_of(&parts, fallback);
        push_str(&mut name, label.as_str());
        push_str(&mut name, ".");
        push_decimal_u64(&mut name, pid as u64);
        push_str(&mut name, ".");
        push_decimal_u64(&mut name, nonce);
        push_str(&mut name, ".tmp");
        let mut temporary_parts_v = dir_of(&parts);
        push_part(&mut temporary_parts_v, chars_of(name.as_str()));
        let temporary = render_parts(&temporary_parts_v);
        AnchorWrite { path: path.to_string(), temporary, directory, phase: WritePhase::Begin }
    }

    /// Whether the write is over.
    pub fn is_done(&self) -> (r: bool)
        ensures
            r == (self.phase() is Done),
    {
        match self.phase {
            WritePhase::Done => true,
            _ => false,
        }
    }

    /// Take the report of the last operation (ignored before the first one) and give the
    /// next operation.
    pub fn step(&mut self, event: WriteEvent) -> (r: WriteAction)
        requires
            old(self).wf(),
            !(old(self).phase() is Done),
        ensures
            final(self).wf(),
            final(self).plan() == old(self).plan(),
            (final(self).phase(), r@) == write_next(old(self).plan(), old(self).phase(), event),
    {
        let (next, action) = match &self.phase {
            WritePhase::Begin => match &self.directory {
                Some(d) => (WritePhase::Directory, WriteAction::CreateDirs(d.clone())),
                None => (WritePhase::Create, WriteAction::CreateNew(self.temporary.clone())),
            },
            WritePhase::Directory => match event {
                WriteEvent::Failed(e) => {
                    let d = match &self.directory {
                        Some(d) => d.clone(),
                        None => String::new(),
                    };
                    (
                        WritePhase::Done,
                        WriteAction::Finish(Err(AnchorWriteError::CreateDirectory { path: d, error: e })),
                    )
                },
                WriteEvent::Succeeded => (WritePhase::Create, WriteAction::CreateNew(self.temporary.clone())),
            },
            WritePhase::Create => match event {
                WriteEvent::Failed(e) => (
                    WritePhase::Done,
                    WriteAction::Finish(
                        Err(AnchorWriteError::CreateTemporary { path: self.temporary.clone(), error: e }),
                    ),
                ),
                WriteEvent::Succeeded => (WritePhase::Write, WriteAction::WriteContents),
            },
            WritePhase::Write => match event {
                WriteEvent::Failed(e) => (
                    WritePhase::Discard { replacing: false, error: e },
                    WriteAction::RemoveFile(self.temporary.clone()),
                ),
                WriteEvent::Succeeded => (WritePhase::Sync, WriteAction::Sync),
            },
            WritePhase::Sync => match event {
                WriteEvent::Failed(e) => (
                    WritePhase::Discard { replacing: false, error: e },
                    WriteAction::RemoveFile(self.temporary.clone()),
                ),
                WriteEvent::Succeeded => (
                    WritePhase::Replace,
                    WriteAction::Rename(self.temporary.clone(), self.path.clone()),
                ),
            },
            WritePhase::Replace => match event {
                WriteEvent::Failed(e) => (
                    WritePhase::Discard { replacing: true, error: e },
                    WriteAction::RemoveFile(self.temporary.clone()),
                ),
                WriteEvent::Succeeded => (WritePhase::Done, WriteAction::Finish(Ok(()))),
            },
            WritePhase::Discard { replacing, error } => {
                let failure = if *replacing {
                    AnchorWriteError::Replace {
                        path: self.path.clone(),
                        temporary_path: self.temporary.clone(),
                        error: error.clone(),
                    }
                } else {
                    AnchorWriteError::WriteTemporary { path: self.temporary.clone(), error: error.clone() }
                };
                (WritePhase::Done, WriteAction::Finish(Err(failure)))
            },
            WritePhase::Done => (WritePhase::Done, WriteAction::Finish(Ok(()))),
        };
        self.phase = next;
        action
    }
}

/// An anchor write replaces the anchor file only with a flushed temporary file, and every
/// failure after the temporary file was created removes it before the write ends.
pub proof fn law_anchor_write_replaces_only_from_a_flushed_temporary(p: WritePlan, ph: WritePhase, ev: WriteEvent)
    ensures
        write_next(p, ph, ev).1 matches WriteStep::Rename(a, b) ==> (ph is Sync && ev is Succeeded && a
            == p.temporary && b == p.path),
        (ph is Write || ph is Sync || ph is Replace) && ev is Failed ==> write_next(p, ph, ev).1
            == WriteStep::RemoveFile(p.temporary),
        write_next(p, ph, ev).1 matches WriteStep::Finish(Ok(())) ==> (ph is Replace || ph is Done),
{
}

proof fn lemma_first_entry_problem_none(es: Seq<(String, AnchorEntry)>)
    ensures
        first_entry_problem(es) is None <==> forall|i: int|
            0 <= i < es.len() ==> anchor_entry_problem((#[trigger] es[i]).0@, es[i].1) is None,
    decreases es.len(),
{
    if es.len() > 0 {
        lemma_first_entry_problem_none(es.drop_first());
        assert forall|i: int| 0 <= i < es.len() - 1 implies #[trigger] es.drop_first()[i] == es[i + 1] by {}
        if first_entry_problem(es) is None {
            assert forall|i: int| 0 <= i < es.len() implies anchor_entry_problem(
                (#[trigger] es[i]).0@,
                es[i].1,
            ) is None by {
                if i > 0 {
                    assert(es.drop_first()[i - 1] == es[i]);
                }
            }
        } else if anchor_entry_problem(es[0].0@, es[0].1) is None {
            let j = choose|j: int|
                0 <= j < es.len() - 1 && anchor_entry_problem(
                    (#[trigger] es.drop_first()[j]).0@,
                    es.drop_first()[j].1,
                ) is Some;
            assert(es.drop_first()[j] == es[j + 1]);
        }
    }
}

/// An anchor passes validation exactly when its schema is 1 and every entry has an address as
/// its key, a valid fingerprint, a valid artifact fingerprint when it has one, and only
/// storable structural field names.
pub proof fn law_valid_anchor_entries(a: AnchorFile)
    ensures
        anchor_problem(a) is None <==> (a.schema == 1 && forall|i: int|
            0 <= i < a.entries@.len() ==> {
                let (id, e) = #[trigger] a.entries@[i];
                &&& valid_address(id@)
                &&& valid_fingerprint(e.fingerprint@)
                &&& (e.artifact_fingerprint matches Some(x) ==> valid_fingerprint(x@))
                &&& forall|k: int|
                    0 <= k < e.structural@.len() ==> storable_structural_field(
                        (#[trigger] e.structural@[k]).0@,
                    )
            }),
{
    let es = a.entries@;
    lemma_first_entry_problem_none(es);
    assert forall|i: int| 0 <= i < es.len() implies (anchor_entry_problem(
        (#[trigger] es[i]).0@,
        es[i].1,
    ) is None <==> {
        let (id, e) = es[i];
        &&& valid_address(id@)
        &&& valid_fingerprint(e.fingerprint@)
        &&& (e.artifact_fingerprint matches Some(x) ==> valid_fingerprint(x@))
        &&& forall|k: int|
            0 <= k < e.structural@.len() ==> storable_structural_field(
                (#[trigger] e.structural@[k]).0@,
            )
    }) by {}
}

} // verus!
