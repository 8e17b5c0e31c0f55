//! The ordinary entries that a new lake starts with.

use vstd::prelude::*;

use crate::address::EntryAddress;
use crate::entry::{Entry, EntryMeta, EntryMetadata, EntryParseError, EntryView, MetadataView};

verus! {

/// A seed entry: address, name, description and body, with no other metadata.
pub open spec fn seed_view(id: Seq<char>, name: Seq<char>, desc: Seq<char>, body: Seq<char>) -> EntryView {
    EntryView {
        id,
        metadata: MetadataView {
            name,
            desc,
            meta: EntryMeta { frozen: None, tide: None, entry_type: None },
            structural: Seq::empty(),
        },
        body,
    }
}

/// The seed entries of a new lake, in order.
pub open spec fn seed_entries() -> Seq<EntryView> {
    seq![
        seed_view(
            "category"@,
            "Category"@,
            "An entry that other entries can be categorized by."@,
            "Categorize an entry by this entry to use it as a category target.\n"@,
        ),
        seed_view(
            "meta"@,
            "Meta"@,
            "An entry that defines the project's principles, vocabulary, and documentation method."@,
            "Defines how this project should be understood and developed.\n"@,
        ),
        seed_view(
            "concept"@,
            "Concept"@,
            "A named idea that compresses project knowledge."@,
            "A concept gives a stable name to compressed project knowledge.\n"@,
        ),
        seed_view(
            "narrative"@,
            "Narrative"@,
            "A route through concepts for a reader."@,
            "A narrative records an order in which a reader can understand concepts.\n"@,
        ),
    ]
}

/// Views of entries.
pub open spec fn entries_view(v: Seq<Entry>) -> Seq<EntryView> {
    v.map_values(|e: Entry| e@)
}

/// A text with no line break is a single-line text.
proof fn lemma_single_line(s: Seq<char>)
    requires
        forall|i: int| 0 <= i < s.len() ==> #[trigger] s[i] != '\n' && s[i] != '\r',
    ensures
        crate::entry::is_plain(s),
{
}

/// One seed entry at a valid address; an error where its name or description spans lines.
fn seed(id: &str, name: &str, desc: &str, body: &str) -> (r: Result<Entry, EntryParseError>)
    requires
        crate::address::valid_address(id@),
    ensures
        r matches Ok(e) ==> e@ == seed_view(id@, name@, desc@, body@),
        crate::entry::is_plain(name@) && crate::entry::is_plain(desc@) ==> r is Ok,
{
    let metadata = EntryMetadata::new(name, desc)?;
    let address = EntryAddress::new(id).unwrap();
    Ok(Entry::new(address, metadata, body))
}

impl Entry {
    /// The ordinary entries that a new lake starts with: `category`, `meta`, `concept` and
    /// `narrative`.
    pub fn default_seed_entries() -> (r: Result<Vec<Entry>, EntryParseError>)
        ensures
            r matches Ok(v) && entries_view(v@) == seed_entries(),
    {
        proof {
            reveal_strlit("category");
            reveal_strlit("meta");
            reveal_strlit("concept");
            reveal_strlit("narrative");
            let c = "category"@;
            assert forall|i: int| 0 <= i < c.len() implies 'a' <= #[trigger] c[i] <= 'z' by {
                assert(i == 0 || i == 1 || i == 2 || i == 3 || i == 4 || i == 5 || i == 6 || i == 7);
            }
            crate::address::lemma_letters_address(c);
            let m = "meta"@;
            assert forall|i: int| 0 <= i < m.len() implies 'a' <= #[trigger] m[i] <= 'z' by {
                assert(i == 0 || i == 1 || i == 2 || i == 3);
            }
            crate::address::lemma_letters_address(m);
            let k = "concept"@;
            assert forall|i: int| 0 <= i < k.len() implies 'a' <= #[trigger] k[i] <= 'z' by {
                assert(i == 0 || i == 1 || i == 2 || i == 3 || i == 4 || i == 5 || i == 6);
            }
            crate::address::lemma_letters_address(k);
            let n = "narrative"@;
            assert forall|i: int| 0 <= i < n.len() implies 'a' <= #[trigger] n[i] <= 'z' by {
                assert(i == 0 || i == 1 || i == 2 || i == 3 || i == 4 || i == 5 || i == 6 || i == 7 || i == 8);
            }
            crate::address::lemma_letters_address(n);
            reveal_strlit("Category");
            let t = "Category"@;
            assert forall|i: int| 0 <= i < t.len() implies #[trigger] t[i] != '\n' && t[i] != '\r' by {
                assert(i == 0 || i == 1 || i == 2 || i == 3 || i == 4 || i == 5 || i == 6 || i == 7);
            }
            lemma_single_line(t);
            reveal_strlit("An entry that other entries can be categorized by.");
            let t = "An entry that other entries can be categorized by."@;
            assert forall|i: int| 0 <= i < t.len() implies #[trigger] t[i] != '\n' && t[i] != '\r' by {
                assert(
                    i == 0 || i == 1 || i == 2 || i == 3 || i == 4 || i == 5 || i == 6 || i == 7 || i == 8 || i == 9
                        || i == 10 || i == 11 || i == 12 || i == 13 || i == 14 || i == 15 || i == 16 || i == 17 || i == 18 || i == 19
                        || i == 20 || i == 21 || i == 22 || i == 23 || i == 24 || i == 25 || i == 26 || i == 27 || i == 28 || i == 29
                        || i == 30 || i == 31 || i == 32 || i == 33 || i == 34 || i == 35 || i == 36 || i == 37 || i == 38 || i == 39
                        || i == 40 || i == 41 || i == 42 || i == 43 || i == 44 || i == 45 || i == 46 || i == 47 || i == 48 || i == 49
                );
            }
            lemma_single_line(t);
            reveal_strlit("Meta");
            let t = "Meta"@;
            assert forall|i: int| 0 <= i < t.len() implies #[trigger] t[i] != '\n' && t[i] != '\r' by {
                assert(i == 0 || i == 1 || i == 2 || i == 3);
            }
            lemma_single_line(t);
            reveal_strlit("An entry that defines the project's principles, vocabulary, and documentation method.");
            let t = "An entry that defines the project's principles, vocabulary, and documentation method."@;
            assert forall|i: int| 0 <= i < t.len() implies #[trigger] t[i] != '\n' && t[i] != '\r' by {
                assert(
                    i == 0 || i == 1 || i == 2 || i == 3 || i == 4 || i == 5 || i == 6 || i == 7 || i == 8 || i == 9
                        || i == 10 || i == 11 || i == 12 || i == 13 || i == 14 || i == 15 || i == 16 || i == 17 || i == 18 || i == 19
                        || i == 20 || i == 21 || i == 22 || i == 23 || i == 24 || i == 25 || i == 26 || i == 27 || i == 28 || i == 29
                        || i == 30 || i == 31 || i == 32 || i == 33 || i == 34 || i == 35 || i == 36 || i == 37 || i == 38 || i == 39
                        || i == 40 || i == 41 || i == 42 || i == 43 || i == 44 || i == 45 || i == 46 || i == 47 || i == 48 || i == 49
                        || i == 50 || i == 51 || i == 52 || i == 53 || i == 54 || i == 55 || i == 56 || i == 57 || i == 58 || i == 59
                        || i == 60 || i == 61 || i == 62 || i == 63 || i == 64 || i == 65 || i == 66 || i == 67 || i == 68 || i == 69
                        || i == 70 || i == 71 || i == 72 || i == 73 || i == 74 || i == 75 || i == 76 || i == 77 || i == 78 || i == 79
                        || i == 80 || i == 81 || i == 82 || i == 83 || i == 84
                );
            }
            lemma_single_line(t);
            reveal_strlit("Concept");
            let t = "Concept"@;
            assert forall|i: int| 0 <= i < t.len() implies #[trigger] t[i] != '\n' && t[i] != '\r' by {
                assert(i == 0 || i == 1 || i == 2 || i == 3 || i == 4 || i == 5 || i == 6);
            }
            lemma_single_line(t);
            reveal_strlit("A named idea that compresses project knowledge.");
            let t = "A named idea that compresses project knowledge."@;
            assert forall|i: int| 0 <= i < t.len() implies #[trigger] t[i] != '\n' && t[i] != '\r' by {
                assert(
                    i == 0 || i == 1 || i == 2 || i == 3 || i == 4 || i == 5 || i == 6 || i == 7 || i == 8 || i == 9
                        || i == 10 || i == 11 || i == 12 || i == 13 || i == 14 || i == 15 || i == 16 || i == 17 || i == 18 || i == 19
                        || i == 20 || i == 21 || i == 22 || i == 23 || i == 24 || i == 25 || i == 26 || i == 27 || i == 28 || i == 29
                        || i == 30 || i == 31 || i == 32 || i == 33 || i == 34 || i == 35 || i == 36 || i == 37 || i == 38 || i == 39
                        || i == 40 || i == 41 || i == 42 || i == 43 || i == 44 || i == 45 || i == 46
                );
            }
            lemma_single_line(t);
            reveal_strlit("Narrative");
            let t = "Narrative"@;
            assert forall|i: int| 0 <= i < t.len() implies #[trigger] t[i] != '\n' && t[i] != '\r' by {
                assert(i == 0 || i == 1 || i == 2 || i == 3 || i == 4 || i == 5 || i == 6 || i == 7 || i == 8);
            }
            lemma_single_line(t);
            reveal_strlit("A route through concepts for a reader.");
            let t = "A route through concepts for a reader."@;
            assert forall|i: int| 0 <= i < t.len() implies #[trigger] t[i] != '\n' && t[i] != '\r' by {
                assert(
                    i == 0 || i == 1 || i == 2 || i == 3 || i == 4 || i == 5 || i == 6 || i == 7 || i == 8 || i == 9
                        || i == 10 || i == 11 || i == 12 || i == 13 || i == 14 || i == 15 || i == 16 || i == 17 || i == 18 || i == 19
                        || i == 20 || i == 21 || i == 22 || i == 23 || i == 24 || i == 25 || i == 26 || i == 27 || i == 28 || i == 29
                        || i == 30 || i == 31 || i == 32 || i == 33 || i == 34 || i == 35 || i == 36 || i == 37
                );
            }
            lemma_single_line(t);
        }
        let category = seed(
            "category",
            "Category",
            "An entry that other entries can be categorized by.",
            "Categorize an entry by this entry to use it as a category target.\n",
        )?;
        let meta = seed(
            "meta",
            "Meta",
            "An entry that defines the project's principles, vocabulary, and documentation method.",
            "Defines how this project should be understood and developed.\n",
        )?;
        let concept = seed(
            "concept",
            "Concept",
            "A named idea that compresses project knowledge.",
            "A concept gives a stable name to compressed project knowledge.\n",
        )?;
        let narrative = seed(
            "narrative",
            "Narrative",
            "A route through concepts for a reader.",
            "A narrative records an order in which a reader can understand concepts.\n",
        )?;
        let mut v: Vec<Entry> = Vec::new();
        v.push(category);
        v.push(meta);
        v.push(concept);
        v.push(narrative);
        assert(entries_view(v@) =~= seed_entries());
        Ok(v)
    }
}

} // verus!
