//! Registry of the metadata fields that a lake defines.
//!
//! Intrinsic fields (`name`, `desc`) belong to every entry; structural link
//! relations are configured per lake.

use vstd::prelude::*;

use crate::address::EntryAddress;
use crate::entry::{name_field, desc_field};
use crate::structural::StructuralSettings;
use crate::text::str_eq;

verus! {

/// `name` is one of the intrinsic metadata fields.
pub open spec fn intrinsic_field_name(name: Seq<char>) -> bool {
    name == name_field() || name == desc_field()
}

/// Why a name cannot be an intrinsic metadata field.
#[derive(Clone, Copy, Debug, PartialEq, Eq, Structural)]
pub enum IntrinsicFieldError {
    /// The name is not an intrinsic metadata field.
    Unknown,
}

/// Check that a name is an intrinsic metadata field.
pub fn validate_intrinsic_field_name(name: &str) -> (r: Result<(), IntrinsicFieldError>)
    ensures
        r is Ok <==> intrinsic_field_name(name@),
{
    proof {
        reveal_strlit("name");
        reveal_strlit("desc");
        assert("name"@ =~= name_field());
        assert("desc"@ =~= desc_field());
    }
    if str_eq(name, "name") || str_eq(name, "desc") {
        Ok(())
    } else {
        Err(IntrinsicFieldError::Unknown)
    }
}

/// View of the intrinsic fields: each field name with the entry that documents it.
pub open spec fn intrinsic_view(v: Seq<(String, EntryAddress)>) -> Seq<(Seq<char>, Seq<char>)> {
    v.map_values(|p: (String, EntryAddress)| (p.0@, p.1@))
}

/// Metadata fields defined for a lake.
#[derive(Debug)]
pub struct MetaRegistry {
    intrinsic: Vec<(String, EntryAddress)>,
    structural: StructuralSettings,
}

impl MetaRegistry {
    /// Intrinsic fields and their documenting entries.
    pub closed spec fn spec_intrinsic(&self) -> Seq<(Seq<char>, Seq<char>)> {
        intrinsic_view(self.intrinsic@)
    }

    /// Configured structural relations.
    pub closed spec fn spec_structural(&self) -> Seq<(Seq<char>, Option<Seq<char>>)> {
        self.structural@
    }

    /// A registry from its parts.
    pub fn from_parts(intrinsic: Vec<(String, EntryAddress)>, structural: StructuralSettings) -> (r:
        Self)
        ensures
            r.spec_intrinsic() == intrinsic_view(intrinsic@),
            r.spec_structural() == structural@,
    {
        MetaRegistry { intrinsic, structural }
    }

    /// The registry of a lake: the intrinsic fields `name` and `desc`, each documented by
    /// the entry of the same address, and the configured structural relations.
    pub fn standard(structural: StructuralSettings) -> (r: Self)
        ensures
            r.spec_intrinsic() == seq![(name_field(), name_field()), (desc_field(), desc_field())],
            r.spec_structural() == structural@,
    {
        proof {
            reveal_strlit("name");
            reveal_strlit("desc");
            let n = "name"@;
            assert forall|i: int| 0 <= i < n.len() implies 'a' <= #[trigger] n[i] <= 'z' by {
                assert(i == 0 || i == 1 || i == 2 || i == 3);
            }
            crate::address::lemma_letters_address(n);
            let d = "desc"@;
            assert forall|i: int| 0 <= i < d.len() implies 'a' <= #[trigger] d[i] <= 'z' by {
                assert(i == 0 || i == 1 || i == 2 || i == 3);
            }
            crate::address::lemma_letters_address(d);
            assert(n =~= name_field());
            assert(d =~= desc_field());
        }
        let name = match EntryAddress::new("name") {
            Ok(a) => a,
            Err(_) => {
                assert(false);
                return MetaRegistry { intrinsic: Vec::new(), structural };
            },
        };
        let desc = match EntryAddress::new("desc") {
            Ok(a) => a,
            Err(_) => {
                assert(false);
                return MetaRegistry { intrinsic: Vec::new(), structural };
            },
        };
        let mut intrinsic: Vec<(String, EntryAddress)> = Vec::new();
        intrinsic.push(("name".to_string(), name));
        intrinsic.push(("desc".to_string(), desc));
        let r = MetaRegistry { intrinsic, structural };
        assert(r.spec_intrinsic() =~= seq![(name_field(), name_field()), (desc_field(), desc_field())]);
        r
    }

    /// Configured structural relations.
    pub fn structural(&self) -> (r: &StructuralSettings)
        ensures
            r@ == self.spec_structural(),
    {
        &self.structural
    }

    /// Intrinsic fields and their documenting entries.
    pub fn intrinsic(&self) -> (r: &[(String, EntryAddress)])
        ensures
            intrinsic_view(r@) == self.spec_intrinsic(),
    {
        self.intrinsic.as_slice()
    }
}

} // verus!
