//! The order of info-hashes: byte by byte, first byte first.

use core::cmp::Ordering;
use vstd::prelude::*;
use vstd::std_specs::cmp::PartialOrdSpec;
use crate::models::info_hash::{
    differs_first_at, lemma_first_difference_unique, lemma_info_hash_ext,
    lemma_sorts_before_total, lemma_sorts_before_transitive, sorts_before, InfoHash,
};

verus! {

impl PartialOrd for InfoHash {
    /// Compares two identifiers byte by byte, first byte first.
    fn partial_cmp(&self, other: &Self) -> (r: Option<Ordering>)
        ensures
            self@ == other@ ==> r == Some(Ordering::Equal),
            sorts_before(self@, other@) ==> r == Some(Ordering::Less),
            sorts_before(other@, self@) ==> r == Some(Ordering::Greater),
    {
        let first = self.first_difference(other);
        proof {
            lemma_sorts_before_total(self@, other@);
        }
        if first == 20 {
            Some(Ordering::Equal)
        } else if self.0[first] < other.0[first] {
            Some(Ordering::Less)
        } else {
            assert forall|k: int| differs_first_at(self@, other@, k) implies !(self@[k]
                < other@[k]) by {
                lemma_first_difference_unique(self@, other@, first, k);
            }
            Some(Ordering::Greater)
        }
    }
}

impl vstd::std_specs::cmp::PartialOrdSpecImpl for InfoHash {
    open spec fn obeys_partial_cmp_spec() -> bool {
        true
    }

    open spec fn partial_cmp_spec(&self, other: &Self) -> Option<Ordering> {
        if self@ == other@ {
            Some(Ordering::Equal)
        } else if sorts_before(self@, other@) {
            Some(Ordering::Less)
        } else {
            Some(Ordering::Greater)
        }
    }
}

/// The order of identifiers is total: `a` is less than `b` exactly where `b`
/// is greater than `a`, and they compare equal exactly where they are the
/// same identifier.
pub proof fn lemma_order_is_total(a: InfoHash, b: InfoHash)
    ensures
        a.partial_cmp_spec(&b) == Some(Ordering::Less) <==> b.partial_cmp_spec(&a) == Some(
            Ordering::Greater,
        ),
        a.partial_cmp_spec(&b) == Some(Ordering::Equal) <==> a == b,
{
    lemma_sorts_before_total(a@, b@);
    if a@ == b@ {
        lemma_info_hash_ext(a, b);
    }
}

/// The order of identifiers is transitive.
pub proof fn lemma_order_is_transitive(a: InfoHash, b: InfoHash, c: InfoHash)
    requires
        a.partial_cmp_spec(&b) == Some(Ordering::Less),
        b.partial_cmp_spec(&c) == Some(Ordering::Less),
    ensures
        a.partial_cmp_spec(&c) == Some(Ordering::Less),
{
    lemma_sorts_before_transitive(a@, b@, c@);
    lemma_sorts_before_total(a@, c@);
}

/// Two identifiers that differ in their last byte only sort as their last
/// bytes do: the one with the larger last byte is the greater.
pub proof fn lemma_last_byte_decides(a: InfoHash, b: InfoHash)
    requires
        forall|j: int| 0 <= j < 19 ==> a@[j] == b@[j],
        a@[19] < b@[19],
    ensures
        a.partial_cmp_spec(&b) == Some(Ordering::Less),
        b.partial_cmp_spec(&a) == Some(Ordering::Greater),
{
    assert(differs_first_at(a@, b@, 19));
    assert(differs_first_at(b@, a@, 19));
    assert forall|k: int| differs_first_at(b@, a@, k) implies !(b@[k] < a@[k]) by {
        lemma_first_difference_unique(b@, a@, 19, k);
    }
}

} // verus!
