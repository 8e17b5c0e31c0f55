//! Entry addresses: the names under which entries live in a lake.
//!
//! An address is non-empty, holds no control character and none of
//! `< > : " / \ | ? * ,`, and is not `.` or `..`.
//! Addresses are ordered as their texts are, character by character.

use vstd::prelude::*;

use crate::text::{chars_of, owned};

verus! {

/// Characters that no entry address may hold.
pub open spec fn is_forbidden_address_char(c: char) -> bool {
    ||| c < ' '
    ||| c == '\u{7F}' || c == '<' || c == '>' || c == ':' || c == '"' || c == '/'
    ||| c == '\\' || c == '|' || c == '?' || c == '*' || c == ','
}

/// Texts that are legal entry addresses.
pub open spec fn valid_address(s: Seq<char>) -> bool {
    &&& s.len() > 0
    &&& forall|i: int| 0 <= i < s.len() ==> !is_forbidden_address_char(#[trigger] s[i])
    &&& s != seq!['.']
    &&& s != seq!['.', '.']
}

/// Texts that are legal entry atoms: addresses with no `.` separator.
pub open spec fn valid_atom(s: Seq<char>) -> bool {
    &&& valid_address(s)
    &&& forall|i: int| 0 <= i < s.len() ==> #[trigger] s[i] != '.'
}

/// Lexicographic order on texts, character by character.
pub open spec fn text_less(a: Seq<char>, b: Seq<char>) -> bool
    decreases a.len(),
{
    if a.len() == 0 {
        b.len() > 0
    } else if b.len() == 0 {
        false
    } else if a[0] < b[0] {
        true
    } else if b[0] < a[0] {
        false
    } else {
        text_less(a.drop_first(), b.drop_first())
    }
}

pub proof fn lemma_text_less_irreflexive(a: Seq<char>)
    ensures
        !text_less(a, a),
    decreases a.len(),
{
    if a.len() > 0 {
        lemma_text_less_irreflexive(a.drop_first());
    }
}

pub proof fn lemma_text_less_asymmetric(a: Seq<char>, b: Seq<char>)
    ensures
        !(text_less(a, b) && text_less(b, a)),
    decreases a.len(),
{
    if a.len() > 0 && b.len() > 0 && a[0] == b[0] {
        lemma_text_less_asymmetric(a.drop_first(), b.drop_first());
    }
}

pub proof fn lemma_text_less_total(a: Seq<char>, b: Seq<char>)
    ensures
        a == b || text_less(a, b) || text_less(b, a),
    decreases a.len(),
{
    if a.len() > 0 && b.len() > 0 && a[0] == b[0] {
        lemma_text_less_total(a.drop_first(), b.drop_first());
        if a.drop_first() == b.drop_first() {
            assert(a =~= seq![a[0]] + a.drop_first());
            assert(b =~= seq![b[0]] + b.drop_first());
        }
    } else if a.len() == 0 && b.len() == 0 {
        assert(a =~= b);
    }
}

pub proof fn lemma_text_less_transitive(a: Seq<char>, b: Seq<char>, c: Seq<char>)
    requires
        text_less(a, b),
        text_less(b, c),
    ensures
        text_less(a, c),
    decreases a.len(),
{
    if a.len() > 0 && b.len() > 0 && c.len() > 0 && a[0] == b[0] && b[0] == c[0] {
        lemma_text_less_transitive(a.drop_first(), b.drop_first(), c.drop_first());
    }
}

/// Three-way comparison outcome.
#[derive(Clone, Copy, Debug, PartialEq, Eq)]
pub enum Order {
    Less,
    Equal,
    Greater,
}

/// Compare two texts in the order of `text_less`.
pub fn compare_texts(a: &[char], b: &[char]) -> (r: Order)
    ensures
        r == Order::Less <==> text_less(a@, b@),
        r == Order::Equal <==> a@ == b@,
        r == Order::Greater <==> text_less(b@, a@),
{
    let mut i: usize = 0;
    assert(a@.subrange(0, a@.len() as int) =~= a@);
    assert(b@.subrange(0, b@.len() as int) =~= b@);
    while i < a.len() && i < b.len() && a[i] == b[i]
        invariant
            i <= a@.len(),
            i <= b@.len(),
            a@.subrange(0, i as int) == b@.subrange(0, i as int),
            text_less(a@, b@) == text_less(
                a@.subrange(i as int, a@.len() as int),
                b@.subrange(i as int, b@.len() as int),
            ),
            text_less(b@, a@) == text_less(
                b@.subrange(i as int, b@.len() as int),
                a@.subrange(i as int, a@.len() as int),
            ),
        decreases a@.len() - i,
    {
        assert(a@.subrange(i as int, a@.len() as int).drop_first() =~= a@.subrange(
            i + 1,
            a@.len() as int,
        ));
        assert(b@.subrange(i as int, b@.len() as int).drop_first() =~= b@.subrange(
            i + 1,
            b@.len() as int,
        ));
        assert(a@.subrange(0, i + 1) =~= a@.subrange(0, i as int).push(a@[i as int]));
        assert(b@.subrange(0, i + 1) =~= b@.subrange(0, i as int).push(b@[i as int]));
        i = i + 1;
    }
    proof {
        assert(a@.subrange(0, a@.len() as int) =~= a@);
        assert(b@.subrange(0, b@.len() as int) =~= b@);
        lemma_text_less_irreflexive(a@);
        lemma_text_less_asymmetric(a@, b@);
    }
    if i == a.len() && i == b.len() {
        Order::Equal
    } else if i == a.len() {
        proof {
            if a@ == b@ {
                assert(a@.len() == b@.len());
            }
        }
        Order::Less
    } else if i == b.len() {
        Order::Greater
    } else if a[i] < b[i] {
        proof {
            if a@ == b@ {
                assert(a@[i as int] == b@[i as int]);
            }
        }
        Order::Less
    } else {
        proof {
            if a@ == b@ {
                assert(a@[i as int] == b@[i as int]);
            }
        }
        Order::Greater
    }
}

/// Why a text is not an entry address.
#[derive(Clone, Debug, PartialEq, Eq)]
pub enum EntryAddressError {
    /// The text is empty.
    Empty,
    /// The text holds a character that addresses exclude.
    ForbiddenCharacter(char),
    /// The text is `.` or `..`.
    Reserved,
    /// The text holds a `.`, which atoms exclude.
    Separator,
}

/// Outcome of checking a text against the address rules.
pub open spec fn address_check(s: Seq<char>) -> Result<(), EntryAddressError> {
    if s.len() == 0 {
        Err(EntryAddressError::Empty)
    } else if exists|i: int| 0 <= i < s.len() && is_forbidden_address_char(#[trigger] s[i]) {
        Err(EntryAddressError::ForbiddenCharacter(first_forbidden(s)))
    } else if s == seq!['.'] || s == seq!['.', '.'] {
        Err(EntryAddressError::Reserved)
    } else {
        Ok(())
    }
}

/// The first forbidden character of a text that holds one.
pub open spec fn first_forbidden(s: Seq<char>) -> char
    decreases s.len(),
{
    if s.len() == 0 {
        ' '
    } else if is_forbidden_address_char(s[0]) {
        s[0]
    } else {
        first_forbidden(s.drop_first())
    }
}

/// Whether `c` may not appear in an address.
pub fn forbidden_address_char(c: char) -> (r: bool)
    ensures
        r == is_forbidden_address_char(c),
{
    c < ' ' || c == '\u{7F}' || c == '<' || c == '>' || c == ':' || c == '"' || c == '/' || c
        == '\\' || c == '|' || c == '?' || c == '*' || c == ','
}

/// Check a text against the address rules.
pub fn check_address(s: &[char]) -> (r: Result<(), EntryAddressError>)
    ensures
        r == address_check(s@),
        r is Ok <==> valid_address(s@),
{
    if s.len() == 0 {
        return Err(EntryAddressError::Empty);
    }
    let mut i: usize = 0;
    assert(s@.subrange(0, s@.len() as int) =~= s@);
    while i < s.len()
        invariant
            i <= s@.len(),
            forall|j: int| 0 <= j < i ==> !is_forbidden_address_char(#[trigger] s@[j]),
            first_forbidden(s@) == first_forbidden(s@.subrange(i as int, s@.len() as int)),
        decreases s@.len() - i,
    {
        if forbidden_address_char(s[i]) {
            assert(s@.subrange(i as int, s@.len() as int)[0] == s@[i as int]);
            return Err(EntryAddressError::ForbiddenCharacter(s[i]));
        }
        assert(s@.subrange(i as int, s@.len() as int).drop_first() =~= s@.subrange(
            i + 1,
            s@.len() as int,
        ));
        i = i + 1;
    }
    if s.len() == 1 && s[0] == '.' {
        assert(s@ =~= seq!['.']);
        return Err(EntryAddressError::Reserved);
    }
    if s.len() == 2 && s[0] == '.' && s[1] == '.' {
        assert(s@ =~= seq!['.', '.']);
        return Err(EntryAddressError::Reserved);
    }
    Ok(())
}

/// Address of one entry in a lake.
#[derive(Debug)]
pub struct EntryAddress {
    text: String,
}

impl View for EntryAddress {
    type V = Seq<char>;

    closed spec fn view(&self) -> Seq<char> {
        self.text@
    }
}

impl EntryAddress {
    #[verifier::type_invariant]
    closed spec fn well_formed(self) -> bool {
        valid_address(self.text@)
    }

    /// Parse an address from its text.
    pub fn new(raw: &str) -> (r: Result<Self, EntryAddressError>)
        ensures
            r is Ok <==> valid_address(raw@),
            r matches Ok(a) ==> a@ == raw@,
            r matches Err(e) ==> Err::<(), EntryAddressError>(e) == address_check(raw@),
    {
        let chars = chars_of(raw);
        match check_address(chars.as_slice()) {
            Ok(()) => Ok(EntryAddress { text: owned(raw) }),
            Err(e) => Err(e),
        }
    }

    /// The address text.
    pub fn as_str(&self) -> (r: &str)
        ensures
            r@ == self@,
            valid_address(self@),
    {
        proof {
            use_type_invariant(self);
        }
        self.text.as_str()
    }

    /// The address text as characters.
    pub fn chars(&self) -> (r: Vec<char>)
        ensures
            r@ == self@,
    {
        chars_of(self.text.as_str())
    }

    /// Whether two addresses are the same.
    pub fn same(&self, other: &Self) -> (r: bool)
        ensures
            r == (self@ == other@),
    {
        self.text == other.text
    }

    /// Compare two addresses in text order.
    pub fn compare(&self, other: &Self) -> (r: Order)
        ensures
            r == Order::Less <==> text_less(self@, other@),
            r == Order::Equal <==> self@ == other@,
            r == Order::Greater <==> text_less(other@, self@),
    {
        let a = self.chars();
        let b = other.chars();
        compare_texts(a.as_slice(), b.as_slice())
    }
}

impl Clone for EntryAddress {
    fn clone(&self) -> (r: Self)
        ensures
            r@ == self@,
    {
        proof {
            use_type_invariant(self);
        }
        EntryAddress { text: self.text.clone() }
    }
}

impl PartialEq for EntryAddress {
    fn eq(&self, other: &Self) -> (r: bool) {
        self.text == other.text
    }
}

impl vstd::std_specs::cmp::PartialEqSpecImpl for EntryAddress {
    open spec fn obeys_eq_spec() -> bool {
        true
    }

    open spec fn eq_spec(&self, other: &Self) -> bool {
        self@ == other@
    }
}

impl Eq for EntryAddress {

}

/// One dot-free segment of an address, such as an upstream domain.
#[derive(Debug)]
pub struct EntryAtom {
    text: String,
}

impl View for EntryAtom {
    type V = Seq<char>;

    closed spec fn view(&self) -> Seq<char> {
        self.text@
    }
}

impl EntryAtom {
    #[verifier::type_invariant]
    closed spec fn well_formed(self) -> bool {
        valid_atom(self.text@)
    }

    /// Parse an atom from its text.
    pub fn new(raw: &str) -> (r: Result<Self, EntryAddressError>)
        ensures
            r is Ok <==> valid_atom(raw@),
            r matches Ok(a) ==> a@ == raw@,
            r matches Err(e) ==> (address_check(raw@) is Err ==> Err::<(), EntryAddressError>(e)
                == address_check(raw@)) && (address_check(raw@) is Ok ==> e
                == EntryAddressError::Separator),
    {
        let chars = chars_of(raw);
        match check_address(chars.as_slice()) {
            Ok(()) => {
                let mut i: usize = 0;
                while i < chars.len()
                    invariant
                        chars@ == raw@,
                        address_check(raw@) is Ok,
                        i <= chars@.len(),
                        forall|j: int| 0 <= j < i ==> #[trigger] chars@[j] != '.',
                    decreases chars@.len() - i,
                {
                    if chars[i] == '.' {
                        return Err(EntryAddressError::Separator);
                    }
                    i = i + 1;
                }
                Ok(EntryAtom { text: owned(raw) })
            },
            Err(e) => Err(e),
        }
    }

    /// The atom text.
    pub fn as_str(&self) -> (r: &str)
        ensures
            r@ == self@,
            valid_atom(self@),
    {
        proof {
            use_type_invariant(self);
        }
        self.text.as_str()
    }
}

impl Clone for EntryAtom {
    fn clone(&self) -> (r: Self)
        ensures
            r@ == self@,
    {
        proof {
            use_type_invariant(self);
        }
        EntryAtom { text: self.text.clone() }
    }
}

impl PartialEq for EntryAtom {
    fn eq(&self, other: &Self) -> (r: bool) {
        self.text == other.text
    }
}

impl vstd::std_specs::cmp::PartialEqSpecImpl for EntryAtom {
    open spec fn obeys_eq_spec() -> bool {
        true
    }

    open spec fn eq_spec(&self, other: &Self) -> bool {
        self@ == other@
    }
}

impl Eq for EntryAtom {

}

/// A text of lowercase letters is an entry address.
pub proof fn lemma_letters_address(s: Seq<char>)
    requires
        s.len() > 0,
        forall|i: int| 0 <= i < s.len() ==> 'a' <= #[trigger] s[i] <= 'z',
    ensures
        valid_address(s),
{
    if s == seq!['.'] {
        assert(s[0] == '.');
    }
    if s == seq!['.', '.'] {
        assert(s[0] == '.');
    }
}

} // verus!
