//! YAML metadata documents, as plain values, and the reading of entry metadata from them.
//!
//! A mapping keeps its pairs in document order.

use vstd::prelude::*;

use crate::address::{address_check, EntryAddress};
use crate::entry::{
    desc_field, frozen_field, is_plain, meta_field, name_field, set_field, EntryMeta, EntryMetadata,
    EntryParseError, EntryStructuralFields, FieldView, FrozenMarker, FrozenReason, MetadataView,
    ParseErrorView,
};
use crate::structural::{StructuralEdgeDirection, StructuralRippleSettings, StructuralTideSettings};
use crate::text::{
    chars_of, has_prefix, owned, slice_eq, slice_has_prefix, slice_range, split_on, split_slice, str_eq,
    string_from,
};

verus! {

/// One YAML value.
#[derive(Debug)]
pub enum YamlValue {
    Null,
    Bool(bool),
    /// A number, as `serde_yaml` displays the number it parsed (not its source spelling).
    Number(String),
    Text(String),
    Sequence(Vec<YamlValue>),
    Mapping(Vec<(YamlValue, YamlValue)>),
    /// A tagged value, by its tag.
    Tagged(String),
}

/// The text of a text value.
pub open spec fn key_text(v: YamlValue) -> Option<Seq<char>> {
    match v {
        YamlValue::Text(s) => Some(s@),
        _ => None,
    }
}

/// Value of the first pair keyed by text `k`.
pub open spec fn lookup(m: Seq<(YamlValue, YamlValue)>, k: Seq<char>) -> Option<YamlValue>
    decreases m.len(),
{
    if m.len() == 0 {
        None
    } else {
        match lookup(m.drop_last(), k) {
            Some(v) => Some(v),
            None => if key_text(m.last().0) == Some(k) {
                Some(m.last().1)
            } else {
                None
            },
        }
    }
}

/// The first key that is not text `k`.
pub open spec fn first_key_except(m: Seq<(YamlValue, YamlValue)>, k: Seq<char>) -> Option<YamlValue>
    decreases m.len(),
{
    if m.len() == 0 {
        None
    } else {
        match first_key_except(m.drop_last(), k) {
            Some(v) => Some(v),
            None => if key_text(m.last().0) != Some(k) {
                Some(m.last().0)
            } else {
                None
            },
        }
    }
}

/// `meta.`
pub open spec fn meta_prefix() -> Seq<char> {
    seq!['m', 'e', 't', 'a', '.']
}

/// A flat tide key: a text key starting with `meta.`.
pub open spec fn is_tide_key(k: YamlValue) -> bool {
    match key_text(k) {
        Some(t) => crate::text::has_prefix(t, meta_prefix()),
        None => false,
    }
}

/// Pairs with flat tide keys, in order.
pub open spec fn tide_pairs(m: Seq<(YamlValue, YamlValue)>) -> Seq<(YamlValue, YamlValue)>
    decreases m.len(),
{
    if m.len() == 0 {
        Seq::empty()
    } else {
        let r = tide_pairs(m.drop_last());
        if is_tide_key(m.last().0) {
            r.push(m.last())
        } else {
            r
        }
    }
}

/// Keys that the structural fields do not take: `name`, `desc`, `meta` and flat tide keys.
pub open spec fn is_reserved_key(k: YamlValue) -> bool {
    is_tide_key(k) || key_text(k) == Some(name_field()) || key_text(k) == Some(desc_field())
        || key_text(k) == Some(meta_field())
}

/// Pairs that hold structural fields, in order.
pub open spec fn plain_pairs(m: Seq<(YamlValue, YamlValue)>) -> Seq<(YamlValue, YamlValue)>
    decreases m.len(),
{
    if m.len() == 0 {
        Seq::empty()
    } else {
        let r = plain_pairs(m.drop_last());
        if is_reserved_key(m.last().0) {
            r
        } else {
            r.push(m.last())
        }
    }
}

/// A required text field.
pub open spec fn required_text(m: Seq<(YamlValue, YamlValue)>, k: Seq<char>) -> Result<
    Seq<char>,
    ParseErrorView,
> {
    match lookup(m, k) {
        None => Err(ParseErrorView::MissingField(k)),
        Some(YamlValue::Text(s)) => Ok(s@),
        Some(_) => Err(ParseErrorView::FieldMustBeString(k)),
    }
}

/// `reviewed`
pub open spec fn reviewed_word() -> Seq<char> {
    seq!['r', 'e', 'v', 'i', 'e', 'w', 'e', 'd']
}

/// `managed`
pub open spec fn managed_word() -> Seq<char> {
    seq!['m', 'a', 'n', 'a', 'g', 'e', 'd']
}

/// The reason named by a list item, if it names one.
pub open spec fn reason_of(v: YamlValue) -> Option<FrozenReason> {
    match key_text(v) {
        Some(t) => if t == reviewed_word() {
            Some(FrozenReason::Reviewed)
        } else if t == managed_word() {
            Some(FrozenReason::Managed)
        } else {
            None
        },
        None => None,
    }
}

/// Reading of a `meta.frozen` value: a non-empty list of distinct known reasons.
pub open spec fn frozen_from(v: YamlValue) -> Result<FrozenMarker, ParseErrorView> {
    match v {
        YamlValue::Sequence(items) => {
            let s = items@;
            if s.len() > 0 && (forall|i: int| 0 <= i < s.len() ==> (#[trigger] reason_of(s[i])) is Some)
                && (forall|i: int, j: int|
                0 <= i < s.len() && 0 <= j < s.len() && i != j ==> #[trigger] reason_of(s[i])
                    != #[trigger] reason_of(s[j])) {
                Ok(
                    FrozenMarker::holding(
                        exists|i: int|
                            0 <= i < s.len() && #[trigger] reason_of(s[i]) == Some(
                                FrozenReason::Reviewed,
                            ),
                        exists|i: int|
                            0 <= i < s.len() && #[trigger] reason_of(s[i]) == Some(
                                FrozenReason::Managed,
                            ),
                    ),
                )
            } else {
                Err(ParseErrorView::InvalidFrozenMarker)
            }
        },
        _ => Err(ParseErrorView::InvalidFrozenMarker),
    }
}

/// Reading of the managed `meta` mapping: its freeze marker.
pub open spec fn meta_from(m: Seq<(YamlValue, YamlValue)>) -> Result<
    Option<FrozenMarker>,
    ParseErrorView,
> {
    match lookup(m, meta_field()) {
        None => Ok(None),
        Some(YamlValue::Mapping(mm)) => {
            let frozen = match lookup(mm@, frozen_field()) {
                None => Ok(None),
                Some(v) => match frozen_from(v) {
                    Ok(f) => Ok(Some(f)),
                    Err(e) => Err(e),
                },
            };
            match frozen {
                Err(e) => Err(e),
                Ok(f) => match first_key_except(mm@, frozen_field()) {
                    Some(k) => match key_text(k) {
                        Some(t) => Err(ParseErrorView::UnknownMetaField(t)),
                        None => Err(ParseErrorView::MetaKeyMustBeString),
                    },
                    None => Ok(f),
                },
            }
        },
        Some(_) => Err(ParseErrorView::MetaMustBeMapping),
    }
}

/// `lake`
pub open spec fn lake_word() -> Seq<char> {
    seq!['l', 'a', 'k', 'e']
}

/// `frost`
pub open spec fn frost_word() -> Seq<char> {
    seq!['f', 'r', 'o', 's', 't']
}

/// Tide settings with one line of one direction set.
pub open spec fn with_ripple(
    t: StructuralTideSettings,
    line_is_lake: bool,
    d: StructuralEdgeDirection,
    enabled: bool,
) -> StructuralTideSettings {
    let set = |r: StructuralRippleSettings|
        if line_is_lake {
            StructuralRippleSettings { lake: enabled, ..r }
        } else {
            StructuralRippleSettings { frost: enabled, ..r }
        };
    match d {
        StructuralEdgeDirection::To => StructuralTideSettings { to: set(t.to), ..t },
        StructuralEdgeDirection::From => StructuralTideSettings { from: set(t.from), ..t },
        StructuralEdgeDirection::Clique => StructuralTideSettings { clique: set(t.clique), ..t },
    }
}

/// The default tide settings: nothing ripples.
pub open spec fn no_tide() -> StructuralTideSettings {
    StructuralTideSettings {
        to: StructuralRippleSettings { lake: false, frost: false },
        from: StructuralRippleSettings { lake: false, frost: false },
        clique: StructuralRippleSettings { lake: false, frost: false },
    }
}

/// One flat tide field applied to the settings read so far.
pub open spec fn apply_tide_field(
    acc: Option<StructuralTideSettings>,
    field: Seq<char>,
    value: YamlValue,
) -> Result<Option<StructuralTideSettings>, ParseErrorView> {
    let meta_field = field.subrange(5, field.len() as int);
    let parts = split_on(meta_field, '.');
    let base = match acc {
        Some(t) => t,
        None => no_tide(),
    };
    if parts.len() == 1 && (parts[0] == lake_word() || parts[0] == frost_word()) {
        match value {
            YamlValue::Bool(b) => if b {
                Err(ParseErrorView::InvalidStructuralTideField(field))
            } else {
                Ok(Some(base))
            },
            _ => Err(ParseErrorView::InvalidStructuralTideField(field)),
        }
    } else if parts.len() == 2 && (parts[0] == lake_word() || parts[0] == frost_word()) {
        match value {
            YamlValue::Bool(b) => {
                if exists|d: StructuralEdgeDirection| d.spec_label() == parts[1] {
                    let d = choose|d: StructuralEdgeDirection| d.spec_label() == parts[1];
                    Ok(Some(with_ripple(base, parts[0] == lake_word(), d, b)))
                } else {
                    Err(ParseErrorView::UnknownMetaField(meta_field))
                }
            },
            _ => Err(ParseErrorView::InvalidStructuralTideField(field)),
        }
    } else {
        Err(ParseErrorView::UnknownMetaField(meta_field))
    }
}

/// Flat tide fields read in order; the first failing one decides the error.
pub open spec fn tide_from(ps: Seq<(YamlValue, YamlValue)>) -> Result<
    Option<StructuralTideSettings>,
    ParseErrorView,
>
    decreases ps.len(),
{
    if ps.len() == 0 {
        Ok(None)
    } else {
        match tide_from(ps.drop_last()) {
            Err(e) => Err(e),
            Ok(acc) => apply_tide_field(acc, key_text(ps.last().0).unwrap(), ps.last().1),
        }
    }
}

/// Targets of one structural field read in order.
pub open spec fn targets_from(field: Seq<char>, items: Seq<YamlValue>) -> Result<
    Seq<Seq<char>>,
    ParseErrorView,
>
    decreases items.len(),
{
    if items.len() == 0 {
        Ok(Seq::empty())
    } else {
        match targets_from(field, items.drop_last()) {
            Err(e) => Err(e),
            Ok(acc) => match items.last() {
                YamlValue::Text(raw) => match address_check(raw@) {
                    Ok(()) => Ok(acc.push(raw@)),
                    Err(source) => Err(
                        ParseErrorView::InvalidStructuralId { field, value: raw@, source },
                    ),
                },
                _ => Err(ParseErrorView::ListItemMustBeString(field)),
            },
        }
    }
}

/// Structural fields read in order.
pub open spec fn structural_from(ps: Seq<(YamlValue, YamlValue)>) -> Result<
    Seq<FieldView>,
    ParseErrorView,
>
    decreases ps.len(),
{
    if ps.len() == 0 {
        Ok(Seq::empty())
    } else {
        match structural_from(ps.drop_last()) {
            Err(e) => Err(e),
            Ok(acc) => match key_text(ps.last().0) {
                None => Err(ParseErrorView::MetadataKeyMustBeString),
                Some(k) => match ps.last().1 {
                    YamlValue::Sequence(items) => match targets_from(k, items@) {
                        Ok(ts) => Ok(set_field(acc, k, ts)),
                        Err(e) => Err(e),
                    },
                    _ => Err(ParseErrorView::FieldMustBeList(k)),
                },
            },
        }
    }
}

/// Reading of entry metadata from a YAML document.
///
/// Keys `name` and `desc` are required texts on one line each; `frozen` may not stand at the
/// top level; `meta` holds the freeze marker; keys starting with `meta.` hold the tide policy;
/// every other key is a structural field whose value lists entry addresses.
pub open spec fn metadata_from_yaml(v: YamlValue) -> Result<MetadataView, ParseErrorView> {
    match v {
        YamlValue::Mapping(m) => {
            let m = m@;
            match (required_text(m, name_field()), required_text(m, desc_field())) {
                (Err(e), _) => Err(e),
                (Ok(_), Err(e)) => Err(e),
                (Ok(name), Ok(desc)) => if !is_plain(name) {
                    Err(ParseErrorView::FieldMustBePlainString(name_field()))
                } else if !is_plain(desc) {
                    Err(ParseErrorView::FieldMustBePlainString(desc_field()))
                } else if lookup(m, frozen_field()) is Some {
                    Err(ParseErrorView::TopLevelFrozenMarker)
                } else {
                    match (meta_from(m), tide_from(tide_pairs(m)), structural_from(plain_pairs(m))) {
                        (Err(e), _, _) => Err(e),
                        (Ok(_), Err(e), _) => Err(e),
                        (Ok(_), Ok(_), Err(e)) => Err(e),
                        (Ok(frozen), Ok(tide), Ok(structural)) => Ok(
                            MetadataView {
                                name,
                                desc,
                                meta: EntryMeta { frozen, tide, entry_type: None },
                                structural,
                            },
                        ),
                    }
                },
            }
        },
        _ => Err(ParseErrorView::MetadataMustBeMapping),
    }
}

pub proof fn lemma_lookup_prefix(m: Seq<(YamlValue, YamlValue)>, n: int, k: Seq<char>)
    requires
        0 <= n <= m.len(),
        lookup(m.subrange(0, n), k) is Some,
    ensures
        lookup(m, k) == lookup(m.subrange(0, n), k),
    decreases m.len(),
{
    if n == m.len() {
        assert(m.subrange(0, n) =~= m);
    } else {
        assert(m.drop_last().subrange(0, n) =~= m.subrange(0, n));
        lemma_lookup_prefix(m.drop_last(), n, k);
    }
}

pub proof fn lemma_first_key_prefix(m: Seq<(YamlValue, YamlValue)>, n: int, k: Seq<char>)
    requires
        0 <= n <= m.len(),
        first_key_except(m.subrange(0, n), k) is Some,
    ensures
        first_key_except(m, k) == first_key_except(m.subrange(0, n), k),
    decreases m.len(),
{
    if n == m.len() {
        assert(m.subrange(0, n) =~= m);
    } else {
        assert(m.drop_last().subrange(0, n) =~= m.subrange(0, n));
        lemma_first_key_prefix(m.drop_last(), n, k);
    }
}

/// The text of a text value.
pub fn text_of(v: &YamlValue) -> (r: Option<&String>)
    ensures
        match r {
            Some(s) => key_text(*v) == Some(s@),
            None => key_text(*v) is None,
        },
{
    match v {
        YamlValue::Text(s) => Some(s),
        _ => None,
    }
}

/// Whether a value is the text `k`.
pub fn is_text(v: &YamlValue, k: &str) -> (r: bool)
    ensures
        r == (key_text(*v) == Some(k@)),
{
    match v {
        YamlValue::Text(s) => str_eq(s.as_str(), k),
        _ => false,
    }
}

/// Value of the first pair keyed by text `k`.
pub fn lookup_value<'a>(m: &'a [(YamlValue, YamlValue)], k: &str) -> (r: Option<&'a YamlValue>)
    ensures
        match r {
            Some(v) => lookup(m@, k@) == Some(*v),
            None => lookup(m@, k@) is None,
        },
{
    let mut i: usize = 0;
    assert(m@.subrange(0, 0) =~= Seq::<(YamlValue, YamlValue)>::empty());
    while i < m.len()
        invariant
            i <= m@.len(),
            lookup(m@.subrange(0, i as int), k@) is None,
        decreases m@.len() - i,
    {
        assert(m@.subrange(0, i + 1).drop_last() =~= m@.subrange(0, i as int));
        if is_text(&m[i].0, k) {
            proof {
                lemma_lookup_prefix(m@, i + 1, k@);
            }
            return Some(&m[i].1);
        }
        i = i + 1;
    }
    assert(m@.subrange(0, m@.len() as int) =~= m@);
    None
}

/// The first key that is not text `k`.
pub fn first_key_other<'a>(m: &'a [(YamlValue, YamlValue)], k: &str) -> (r: Option<&'a YamlValue>)
    ensures
        match r {
            Some(v) => first_key_except(m@, k@) == Some(*v),
            None => first_key_except(m@, k@) is None,
        },
{
    let mut i: usize = 0;
    assert(m@.subrange(0, 0) =~= Seq::<(YamlValue, YamlValue)>::empty());
    while i < m.len()
        invariant
            i <= m@.len(),
            first_key_except(m@.subrange(0, i as int), k@) is None,
        decreases m@.len() - i,
    {
        assert(m@.subrange(0, i + 1).drop_last() =~= m@.subrange(0, i as int));
        if !is_text(&m[i].0, k) {
            proof {
                lemma_first_key_prefix(m@, i + 1, k@);
            }
            return Some(&m[i].0);
        }
        i = i + 1;
    }
    assert(m@.subrange(0, m@.len() as int) =~= m@);
    None
}

/// Characters of a literal word whose characters the caller states.
fn literal(w: &str, Ghost(expected): Ghost<Seq<char>>) -> (r: Vec<char>)
    requires
        w@ == expected,
    ensures
        r@ == expected,
{
    chars_of(w)
}

/// The reason named by a list item.
fn reason_exec(v: &YamlValue) -> (r: Option<FrozenReason>)
    ensures
        r == reason_of(*v),
{
    proof {
        reveal_strlit("reviewed");
        reveal_strlit("managed");
        assert("reviewed"@ =~= reviewed_word());
        assert("managed"@ =~= managed_word());
    }
    if is_text(v, "reviewed") {
        Some(FrozenReason::Reviewed)
    } else if is_text(v, "managed") {
        Some(FrozenReason::Managed)
    } else {
        None
    }
}

/// Read a `meta.frozen` value.
pub fn frozen_from_value(v: &YamlValue) -> (r: Result<FrozenMarker, EntryParseError>)
    ensures
        match r {
            Ok(f) => frozen_from(*v) == Ok::<FrozenMarker, ParseErrorView>(f),
            Err(e) => frozen_from(*v) == Err::<FrozenMarker, ParseErrorView>(e@),
        },
{
    match v {
        YamlValue::Sequence(items) => {
            let ghost s = items@;
            if items.len() == 0 {
                return Err(EntryParseError::InvalidFrozenMarker);
            }
            let mut reviewed = false;
            let mut managed = false;
            let mut i: usize = 0;
            while i < items.len()
                invariant
                    s == items@,
                    match *v {
                        YamlValue::Sequence(its) => its@ == s,
                        _ => false,
                    },
                    s.len() > 0,
                    i <= s.len(),
                    forall|j: int| 0 <= j < i ==> (#[trigger] reason_of(s[j])) is Some,
                    forall|a: int, b: int|
                        0 <= a < i && 0 <= b < i && a != b ==> #[trigger] reason_of(s[a])
                            != #[trigger] reason_of(s[b]),
                    reviewed == exists|j: int|
                        0 <= j < i && #[trigger] reason_of(s[j]) == Some(FrozenReason::Reviewed),
                    managed == exists|j: int|
                        0 <= j < i && #[trigger] reason_of(s[j]) == Some(FrozenReason::Managed),
                decreases s.len() - i,
            {
                match reason_exec(&items[i]) {
                    None => {
                        assert(reason_of(s[i as int]) is None);
                        return Err(EntryParseError::InvalidFrozenMarker);
                    },
                    Some(FrozenReason::Reviewed) => {
                        if reviewed {
                            proof {
                                let j = choose|j: int|
                                    0 <= j < i && #[trigger] reason_of(s[j]) == Some(
                                        FrozenReason::Reviewed,
                                    );
                                assert(reason_of(s[j]) == reason_of(s[i as int]));
                            }
                            return Err(EntryParseError::InvalidFrozenMarker);
                        }
                        reviewed = true;
                    },
                    Some(FrozenReason::Managed) => {
                        if managed {
                            proof {
                                let j = choose|j: int|
                                    0 <= j < i && #[trigger] reason_of(s[j]) == Some(
                                        FrozenReason::Managed,
                                    );
                                assert(reason_of(s[j]) == reason_of(s[i as int]));
                            }
                            return Err(EntryParseError::InvalidFrozenMarker);
                        }
                        managed = true;
                    },
                }
                proof {
                    assert forall|a: int, b: int|
                        0 <= a < i + 1 && 0 <= b < i + 1 && a != b implies #[trigger] reason_of(
                        s[a],
                    ) != #[trigger] reason_of(s[b]) by {
                        if a == i {
                            if reason_of(s[b]) == reason_of(s[a]) {
                                assert(reason_of(s[b]) is Some);
                            }
                        }
                        if b == i {
                            if reason_of(s[b]) == reason_of(s[a]) {
                                assert(reason_of(s[a]) is Some);
                            }
                        }
                    }
                }
                i = i + 1;
            }
            proof {
                assert(reason_of(s[0]) is Some);
                if reason_of(s[0]) == Some(FrozenReason::Reviewed) {
                    assert(reviewed);
                } else {
                    assert(managed);
                }
            }
            Ok(FrozenMarker::from_reasons(reviewed, managed))
        },
        _ => Err(EntryParseError::InvalidFrozenMarker),
    }
}

/// Read the managed `meta` mapping of a metadata document.
pub fn meta_from_pairs(m: &[(YamlValue, YamlValue)]) -> (r: Result<Option<FrozenMarker>, EntryParseError>)
    ensures
        match r {
            Ok(f) => meta_from(m@) == Ok::<Option<FrozenMarker>, ParseErrorView>(f),
            Err(e) => meta_from(m@) == Err::<Option<FrozenMarker>, ParseErrorView>(e@),
        },
{
    proof {
        reveal_strlit("meta");
        reveal_strlit("frozen");
        assert("meta"@ =~= meta_field());
        assert("frozen"@ =~= frozen_field());
    }
    match lookup_value(m, "meta") {
        None => Ok(None),
        Some(YamlValue::Mapping(mm)) => {
            let frozen = match lookup_value(mm.as_slice(), "frozen") {
                None => None,
                Some(v) => Some(frozen_from_value(v)?),
            };
            match first_key_other(mm.as_slice(), "frozen") {
                Some(k) => match text_of(k) {
                    Some(t) => Err(EntryParseError::UnknownMetaField(t.clone())),
                    None => Err(EntryParseError::MetaKeyMustBeString),
                },
                None => Ok(frozen),
            }
        },
        Some(_) => Err(EntryParseError::MetaMustBeMapping),
    }
}

pub proof fn lemma_label_injective(d1: StructuralEdgeDirection, d2: StructuralEdgeDirection)
    ensures
        d1.spec_label() == d2.spec_label() ==> d1 == d2,
{
    if d1.spec_label() == d2.spec_label() {
        match d1 {
            StructuralEdgeDirection::To => {},
            StructuralEdgeDirection::From => {},
            StructuralEdgeDirection::Clique => {},
        }
        match d2 {
            StructuralEdgeDirection::To => {},
            StructuralEdgeDirection::From => {},
            StructuralEdgeDirection::Clique => {},
        }
        assert(d1.spec_label().len() == d2.spec_label().len());
    }
}

/// Tide settings with one line of one direction set.
pub fn set_ripple(
    t: StructuralTideSettings,
    line_is_lake: bool,
    d: StructuralEdgeDirection,
    enabled: bool,
) -> (r: StructuralTideSettings)
    ensures
        r == with_ripple(t, line_is_lake, d, enabled),
{
    let mut t = t;
    match d {
        StructuralEdgeDirection::To => if line_is_lake {
            t.to.lake = enabled;
        } else {
            t.to.frost = enabled;
        },
        StructuralEdgeDirection::From => if line_is_lake {
            t.from.lake = enabled;
        } else {
            t.from.frost = enabled;
        },
        StructuralEdgeDirection::Clique => if line_is_lake {
            t.clique.lake = enabled;
        } else {
            t.clique.frost = enabled;
        },
    }
    t
}

/// Apply one flat tide field to the settings read so far.
pub fn apply_tide(acc: Option<StructuralTideSettings>, field: &[char], value: &YamlValue) -> (r:
    Result<Option<StructuralTideSettings>, EntryParseError>)
    requires
        has_prefix(field@, meta_prefix()),
    ensures
        match r {
            Ok(t) => apply_tide_field(acc, field@, *value) == Ok::<
                Option<StructuralTideSettings>,
                ParseErrorView,
            >(t),
            Err(e) => apply_tide_field(acc, field@, *value) == Err::<
                Option<StructuralTideSettings>,
                ParseErrorView,
            >(e@),
        },
{
    proof {
        reveal_strlit("lake");
        reveal_strlit("frost");
        assert("lake"@ =~= lake_word());
        assert("frost"@ =~= frost_word());
    }
    let meta_field = slice_range(field, 5, field.len());
    let parts = split_slice(meta_field.as_slice(), '.');
    proof {
        crate::text::lemma_split_on_nonempty(meta_field@, '.');
    }
    let ghost ps = split_on(meta_field@, '.');
    assert(parts@.len() == ps.len());
    let base = match acc {
        Some(t) => t,
        None => StructuralTideSettings::new(
            StructuralRippleSettings::new(false, false),
            StructuralRippleSettings::new(false, false),
            StructuralRippleSettings::new(false, false),
        ),
    };
    let lake = literal("lake", Ghost(lake_word()));
    let frost = literal("frost", Ghost(frost_word()));
    let is_lake = slice_eq(parts[0].as_slice(), lake.as_slice());
    let is_line = is_lake || slice_eq(parts[0].as_slice(), frost.as_slice());
    assert(parts@[0]@ == ps[0]);
    if parts.len() == 1 && is_line {
        match value {
            YamlValue::Bool(b) => if *b {
                Err(EntryParseError::InvalidStructuralTideField(string_from(field)))
            } else {
                Ok(Some(base))
            },
            _ => Err(EntryParseError::InvalidStructuralTideField(string_from(field))),
        }
    } else if parts.len() == 2 && is_line {
        assert(parts@[1]@ == ps[1]);
        match value {
            YamlValue::Bool(b) => {
                let label = string_from(parts[1].as_slice());
                match StructuralEdgeDirection::parse(label.as_str()) {
                    Some(d) => {
                        proof {
                            let c = choose|c: StructuralEdgeDirection| c.spec_label() == ps[1];
                            lemma_label_injective(c, d);
                        }
                        Ok(Some(set_ripple(base, is_lake, d, *b)))
                    },
                    None => Err(EntryParseError::UnknownMetaField(string_from(meta_field.as_slice()))),
                }
            },
            _ => Err(EntryParseError::InvalidStructuralTideField(string_from(field))),
        }
    } else {
        Err(EntryParseError::UnknownMetaField(string_from(meta_field.as_slice())))
    }
}

/// Characters of `meta.`.
fn meta_prefix_chars() -> (r: Vec<char>)
    ensures
        r@ == meta_prefix(),
{
    proof {
        reveal_strlit("meta.");
        assert("meta."@ =~= meta_prefix());
    }
    literal("meta.", Ghost(meta_prefix()))
}

/// Whether a key is a flat tide key.
pub fn tide_key(k: &YamlValue) -> (r: bool)
    ensures
        r == is_tide_key(*k),
{
    match text_of(k) {
        Some(t) => {
            let tc = chars_of(t.as_str());
            let prefix = meta_prefix_chars();
            slice_has_prefix(tc.as_slice(), prefix.as_slice())
        },
        None => false,
    }
}

/// Read the flat tide fields of a metadata document.
pub fn tide_from_pairs(m: &[(YamlValue, YamlValue)]) -> (r: Result<
    Option<StructuralTideSettings>,
    EntryParseError,
>)
    ensures
        match r {
            Ok(t) => tide_from(tide_pairs(m@)) == Ok::<
                Option<StructuralTideSettings>,
                ParseErrorView,
            >(t),
            Err(e) => tide_from(tide_pairs(m@)) == Err::<
                Option<StructuralTideSettings>,
                ParseErrorView,
            >(e@),
        },
{
    let mut acc: Option<StructuralTideSettings> = None;
    let mut i: usize = 0;
    assert(m@.subrange(0, 0) =~= Seq::<(YamlValue, YamlValue)>::empty());
    while i < m.len()
        invariant
            i <= m@.len(),
            tide_from(tide_pairs(m@.subrange(0, i as int))) == Ok::<
                Option<StructuralTideSettings>,
                ParseErrorView,
            >(acc),
        decreases m@.len() - i,
    {
        let ghost prefix = m@.subrange(0, i as int);
        assert(m@.subrange(0, i + 1).drop_last() =~= prefix);
        if tide_key(&m[i].0) {
            let t = text_of(&m[i].0).unwrap();
            let tc = chars_of(t.as_str());
            assert(tide_pairs(m@.subrange(0, i + 1)).drop_last() =~= tide_pairs(prefix));
            match apply_tide(acc, tc.as_slice(), &m[i].1) {
                Ok(next) => {
                    acc = next;
                },
                Err(e) => {
                    proof {
                        lemma_tide_prefix_err(m@, i + 1);
                    }
                    return Err(e);
                },
            }
        }
        i = i + 1;
    }
    assert(m@.subrange(0, m@.len() as int) =~= m@);
    Ok(acc)
}

pub proof fn lemma_tide_prefix_err(m: Seq<(YamlValue, YamlValue)>, n: int)
    requires
        0 <= n <= m.len(),
        tide_from(tide_pairs(m.subrange(0, n))) is Err,
    ensures
        tide_from(tide_pairs(m)) == tide_from(tide_pairs(m.subrange(0, n))),
    decreases m.len(),
{
    if n == m.len() {
        assert(m.subrange(0, n) =~= m);
    } else {
        assert(m.drop_last().subrange(0, n) =~= m.subrange(0, n));
        lemma_tide_prefix_err(m.drop_last(), n);
        if is_tide_key(m.last().0) {
            assert(tide_pairs(m).drop_last() =~= tide_pairs(m.drop_last()));
        }
    }
}

pub proof fn lemma_structural_prefix_err(m: Seq<(YamlValue, YamlValue)>, n: int)
    requires
        0 <= n <= m.len(),
        structural_from(plain_pairs(m.subrange(0, n))) is Err,
    ensures
        structural_from(plain_pairs(m)) == structural_from(plain_pairs(m.subrange(0, n))),
    decreases m.len(),
{
    if n == m.len() {
        assert(m.subrange(0, n) =~= m);
    } else {
        assert(m.drop_last().subrange(0, n) =~= m.subrange(0, n));
        lemma_structural_prefix_err(m.drop_last(), n);
        if !is_reserved_key(m.last().0) {
            assert(plain_pairs(m).drop_last() =~= plain_pairs(m.drop_last()));
        }
    }
}

pub proof fn lemma_targets_prefix_err(field: Seq<char>, items: Seq<YamlValue>, n: int)
    requires
        0 <= n <= items.len(),
        targets_from(field, items.subrange(0, n)) is Err,
    ensures
        targets_from(field, items) == targets_from(field, items.subrange(0, n)),
    decreases items.len(),
{
    if n == items.len() {
        assert(items.subrange(0, n) =~= items);
    } else {
        assert(items.drop_last().subrange(0, n) =~= items.subrange(0, n));
        lemma_targets_prefix_err(field, items.drop_last(), n);
    }
}

/// Read the targets of one structural field.
pub fn targets_from_items(field: &str, items: &[YamlValue]) -> (r: Result<
    Vec<EntryAddress>,
    EntryParseError,
>)
    ensures
        match r {
            Ok(v) => targets_from(field@, items@) == Ok::<Seq<Seq<char>>, ParseErrorView>(
                crate::entry::addresses_view(v@),
            ),
            Err(e) => targets_from(field@, items@) == Err::<Seq<Seq<char>>, ParseErrorView>(e@),
        },
{
    let mut out: Vec<EntryAddress> = Vec::new();
    let mut i: usize = 0;
    assert(items@.subrange(0, 0) =~= Seq::<YamlValue>::empty());
    assert(crate::entry::addresses_view(out@) =~= Seq::<Seq<char>>::empty());
    while i < items.len()
        invariant
            i <= items@.len(),
            targets_from(field@, items@.subrange(0, i as int)) == Ok::<
                Seq<Seq<char>>,
                ParseErrorView,
            >(crate::entry::addresses_view(out@)),
        decreases items@.len() - i,
    {
        assert(items@.subrange(0, i + 1).drop_last() =~= items@.subrange(0, i as int));
        match &items[i] {
            YamlValue::Text(raw) => match EntryAddress::new(raw.as_str()) {
                Ok(a) => {
                    let ghost prev = out@;
                    out.push(a);
                    assert(crate::entry::addresses_view(out@) =~= crate::entry::addresses_view(
                        prev,
                    ).push(raw@));
                },
                Err(source) => {
                    proof {
                        lemma_targets_prefix_err(field@, items@, i + 1);
                    }
                    return Err(
                        EntryParseError::InvalidStructuralId {
                            field: owned(field),
                            value: raw.clone(),
                            source,
                        },
                    );
                },
            },
            _ => {
                proof {
                    lemma_targets_prefix_err(field@, items@, i + 1);
                }
                return Err(EntryParseError::ListItemMustBeString(owned(field)));
            },
        }
        i = i + 1;
    }
    assert(items@.subrange(0, items@.len() as int) =~= items@);
    Ok(out)
}

/// Whether a key is reserved for name, description, managed or tide metadata.
pub fn reserved_key(k: &YamlValue) -> (r: bool)
    ensures
        r == is_reserved_key(*k),
{
    proof {
        reveal_strlit("name");
        reveal_strlit("desc");
        reveal_strlit("meta");
        assert("name"@ =~= name_field());
        assert("desc"@ =~= desc_field());
        assert("meta"@ =~= meta_field());
    }
    tide_key(k) || is_text(k, "name") || is_text(k, "desc") || is_text(k, "meta")
}

/// Read the structural fields of a metadata document.
pub fn structural_from_pairs(m: &[(YamlValue, YamlValue)]) -> (r: Result<
    EntryStructuralFields,
    EntryParseError,
>)
    ensures
        match r {
            Ok(f) => structural_from(plain_pairs(m@)) == Ok::<Seq<FieldView>, ParseErrorView>(f@),
            Err(e) => structural_from(plain_pairs(m@)) == Err::<Seq<FieldView>, ParseErrorView>(
                e@,
            ),
        },
{
    let mut acc = EntryStructuralFields::new();
    let mut i: usize = 0;
    assert(m@.subrange(0, 0) =~= Seq::<(YamlValue, YamlValue)>::empty());
    while i < m.len()
        invariant
            i <= m@.len(),
            structural_from(plain_pairs(m@.subrange(0, i as int))) == Ok::<
                Seq<FieldView>,
                ParseErrorView,
            >(acc@),
        decreases m@.len() - i,
    {
        let ghost prefix = m@.subrange(0, i as int);
        assert(m@.subrange(0, i + 1).drop_last() =~= prefix);
        if !reserved_key(&m[i].0) {
            assert(plain_pairs(m@.subrange(0, i + 1)) =~= plain_pairs(prefix).push(m@[i as int]));
            assert(plain_pairs(m@.subrange(0, i + 1)).drop_last() =~= plain_pairs(prefix));
            match text_of(&m[i].0) {
                None => {
                    proof {
                        lemma_structural_prefix_err(m@, i + 1);
                    }
                    return Err(EntryParseError::MetadataKeyMustBeString);
                },
                Some(k) => match &m[i].1 {
                    YamlValue::Sequence(items) => match targets_from_items(k.as_str(), items.as_slice()) {
                        Ok(targets) => {
                            acc.set(k.as_str(), targets);
                        },
                        Err(e) => {
                            proof {
                                lemma_structural_prefix_err(m@, i + 1);
                            }
                            return Err(e);
                        },
                    },
                    _ => {
                        proof {
                            lemma_structural_prefix_err(m@, i + 1);
                        }
                        return Err(EntryParseError::FieldMustBeList(k.clone()));
                    },
                },
            }
        }
        i = i + 1;
    }
    assert(m@.subrange(0, m@.len() as int) =~= m@);
    Ok(acc)
}

/// Read a required text field.
pub fn required_field(m: &[(YamlValue, YamlValue)], k: &str) -> (r: Result<String, EntryParseError>)
    ensures
        match r {
            Ok(s) => required_text(m@, k@) == Ok::<Seq<char>, ParseErrorView>(s@),
            Err(e) => required_text(m@, k@) == Err::<Seq<char>, ParseErrorView>(e@),
        },
{
    match lookup_value(m, k) {
        None => Err(EntryParseError::MissingField(owned(k))),
        Some(YamlValue::Text(s)) => Ok(s.clone()),
        Some(_) => Err(EntryParseError::FieldMustBeString(owned(k))),
    }
}

impl EntryMetadata {
    /// Read entry metadata from its YAML document.
    pub fn from_yaml(value: &YamlValue) -> (r: Result<Self, EntryParseError>)
        ensures
            match r {
                Ok(md) => metadata_from_yaml(*value) == Ok::<MetadataView, ParseErrorView>(md@),
                Err(e) => metadata_from_yaml(*value) == Err::<MetadataView, ParseErrorView>(e@),
            },
    {
        proof {
            reveal_strlit("name");
            reveal_strlit("desc");
            reveal_strlit("frozen");
            assert("name"@ =~= name_field());
            assert("desc"@ =~= desc_field());
            assert("frozen"@ =~= frozen_field());
        }
        match value {
            YamlValue::Mapping(m) => {
                let m = m.as_slice();
                let name = required_field(m, "name")?;
                let desc = required_field(m, "desc")?;
                crate::entry::validate_plain_string("name", name.as_str())?;
                crate::entry::validate_plain_string("desc", desc.as_str())?;
                if lookup_value(m, "frozen").is_some() {
                    return Err(EntryParseError::TopLevelFrozenMarker);
                }
                let frozen = meta_from_pairs(m)?;
                let tide = tide_from_pairs(m)?;
                let structural = structural_from_pairs(m)?;
                Ok(EntryMetadata {
                    name,
                    desc,
                    meta: EntryMeta { frozen, tide, entry_type: None },
                    structural,
                })
            },
            _ => Err(EntryParseError::MetadataMustBeMapping),
        }
    }
}


/// The document that `serde_yaml` reads from a text: the value, or the error's message.
pub uninterp spec fn yaml_document(text: Seq<char>) -> Result<YamlValue, Seq<char>>;

/// A YAML value as `serde_yaml` parses it.
#[verifier::external_type_specification]
#[verifier::external_body]
pub struct ExSerdeYamlValue(serde_yaml::Value);

/// Carries a `serde_yaml::Value` over into a `YamlValue`, variant by variant: numbers by
/// their displayed text, tagged values by their tag alone. It holds no rule of its own; the contract of
/// `parse_yaml_document`, its one caller, covers its result.
#[verifier::external_body]
fn yaml_value_from(v: serde_yaml::Value) -> YamlValue {
    match v {
        serde_yaml::Value::Null => YamlValue::Null,
        serde_yaml::Value::Bool(b) => YamlValue::Bool(b),
        serde_yaml::Value::Number(n) => YamlValue::Number(n.to_string()),
        serde_yaml::Value::String(s) => YamlValue::Text(s),
        serde_yaml::Value::Sequence(items) => YamlValue::Sequence(items.into_iter().map(yaml_value_from).collect()),
        serde_yaml::Value::Mapping(m) => YamlValue::Mapping(m.into_iter().map(|(k, v)| (yaml_value_from(k), yaml_value_from(v))).collect()),
        serde_yaml::Value::Tagged(t) => YamlValue::Tagged(t.tag.to_string()),
    }
}

/// Reads a YAML document with `serde_yaml::from_str` into a `serde_yaml::Value`; the
/// outcome (the value, or the error's text) is the named document of that text and
/// nothing more is claimed of it.
#[verifier::external_body]
fn parse_yaml_document(text: &str) -> (r: Result<YamlValue, String>)
    ensures
        match r {
            Ok(v) => yaml_document(text@) == Ok::<YamlValue, Seq<char>>(v),
            Err(m) => yaml_document(text@) == Err::<YamlValue, Seq<char>>(m@),
        },
{
    match serde_yaml::from_str::<serde_yaml::Value>(text) {
        Ok(v) => Ok(yaml_value_from(v)),
        Err(e) => Err(e.to_string()),
    }
}

/// Entry metadata read from a YAML source text.
pub open spec fn metadata_from_source(text: Seq<char>) -> Result<MetadataView, ParseErrorView> {
    match yaml_document(text) {
        Err(m) => Err(ParseErrorView::Yaml(m)),
        Ok(v) => metadata_from_yaml(v),
    }
}

/// Metadata read from a YAML document: decides on the parsed document, or reports why it
/// does not parse.
pub fn metadata_from_document(document: Result<YamlValue, String>) -> (r: Result<EntryMetadata, EntryParseError>)
    ensures
        match document {
            Err(m) => r matches Err(EntryParseError::Yaml(x)) && x@ == m@,
            Ok(v) => match r {
                Ok(md) => metadata_from_yaml(v) == Ok::<MetadataView, ParseErrorView>(md@),
                Err(e) => metadata_from_yaml(v) == Err::<MetadataView, ParseErrorView>(e@),
            },
        },
{
    match document {
        Err(m) => Err(EntryParseError::Yaml(m)),
        Ok(v) => EntryMetadata::from_yaml(&v),
    }
}

impl EntryMetadata {
    /// Read entry metadata from its YAML source text.
    pub fn from_yaml_source(source: &str) -> (r: Result<Self, EntryParseError>)
        ensures
            match r {
                Ok(md) => metadata_from_source(source@) == Ok::<MetadataView, ParseErrorView>(md@),
                Err(e) => metadata_from_source(source@) == Err::<MetadataView, ParseErrorView>(e@),
            },
    {
        metadata_from_document(parse_yaml_document(source))
    }
}

/// The entry read from a Markdown source.
pub open spec fn entry_from_markdown(id: Seq<char>, source: Seq<char>) -> Result<crate::entry::EntryView, ParseErrorView> {
    match crate::frontmatter::split_frontmatter_spec(source) {
        Err(e) => Err(e),
        Ok((m, b)) => match metadata_from_source(m) {
            Err(e) => Err(e),
            Ok(md) => Ok(crate::entry::EntryView { id, metadata: md, body: b }),
        },
    }
}

impl crate::entry::Entry {
    /// Read one entry from its Markdown source: the YAML metadata block and the body after it.
    pub fn from_markdown(id: EntryAddress, source: &str) -> (r: Result<Self, EntryParseError>)
        ensures
            match r {
                Ok(e) => entry_from_markdown(id@, source@) == Ok::<crate::entry::EntryView, ParseErrorView>(e@),
                Err(e) => entry_from_markdown(id@, source@) == Err::<crate::entry::EntryView, ParseErrorView>(e@),
            },
    {
        let (metadata_source, body) = crate::frontmatter::split_frontmatter(source)?;
        let metadata = EntryMetadata::from_yaml_source(metadata_source.as_str())?;
        Ok(crate::entry::Entry::new(id, metadata, body.as_str()))
    }
}


/// Reading the Markdown source of an entry gives back its address and its body unchanged;
/// its metadata is what the YAML reader makes of the rendered metadata (without its last
/// line ending). This holds wherever no rendered metadata line is a fence.
pub proof fn law_written_entry_reads_back(id: Seq<char>, m: crate::entry::MetadataView, body: Seq<char>)
    requires
        crate::frontmatter::fence_free(crate::render::metadata_yaml(m)),
    ensures
        entry_from_markdown(id, crate::render::entry_markdown(id, m, body)) == match metadata_from_source(
            crate::frontmatter::without_last_ending(crate::render::metadata_yaml(m)),
        ) {
            Ok(md) => Ok::<crate::entry::EntryView, ParseErrorView>(
                crate::entry::EntryView { id, metadata: md, body },
            ),
            Err(e) => Err::<crate::entry::EntryView, ParseErrorView>(e),
        },
{
    crate::render::law_written_entry_splits_back(id, m, body);
}

} // verus!
