//! Names: comparing them and finding them in a list.

use vstd::prelude::*;
use vstd::utf8::encode_utf8;

verus! {

/// Whether two string slices hold the same characters.
///
/// The comparison walks the UTF-8 encodings; since decoding inverts encoding,
/// equal bytes mean equal character sequences.
pub fn same_text(a: &str, b: &str) -> (same: bool)
    ensures
        same == (a@ == b@),
{
    let x = a.as_bytes();
    let y = b.as_bytes();
    proof {
        vstd::utf8::encode_utf8_decode_utf8(a@);
        vstd::utf8::encode_utf8_decode_utf8(b@);
    }
    if x.len() != y.len() {
        return false;
    }
    let mut i: usize = 0;
    while i < x.len()
        invariant
            x.len() == y.len(),
            i <= x.len(),
            x@ == encode_utf8(a@),
            y@ == encode_utf8(b@),
            forall|j: int| 0 <= j < i ==> x@[j] == y@[j],
        decreases x.len() - i,
    {
        if x[i] != y[i] {
            return false;
        }
        i += 1;
    }
    assert(x@ =~= y@);
    true
}

/// The positions of `names` are pairwise different.
pub open spec fn distinct(names: Seq<Seq<char>>) -> bool {
    forall|i: int, j: int| 0 <= i < j < names.len() ==> names[i] != names[j]
}

/// Whether `name` occurs in `names`.
pub open spec fn listed(names: Seq<Seq<char>>, name: Seq<char>) -> bool {
    exists|k: int| 0 <= k < names.len() && names[k] == name
}

/// A position at which `name` occurs in `names`; the only one where the names
/// are distinct. Meaningful when `listed(names, name)`.
pub open spec fn position(names: Seq<Seq<char>>, name: Seq<char>) -> int {
    choose|k: int| 0 <= k < names.len() && names[k] == name
}

/// With distinct names, a position that holds `name` is `position(names, name)`.
pub proof fn lemma_position_unique(names: Seq<Seq<char>>, name: Seq<char>, k: int)
    requires
        distinct(names),
        0 <= k < names.len(),
        names[k] == name,
    ensures
        listed(names, name),
        position(names, name) == k,
{
    let c = position(names, name);
    assert(0 <= c < names.len() && names[c] == name);
    if c < k {
        assert(names[c] != names[k]);
    } else if k < c {
        assert(names[k] != names[c]);
    }
}

} // verus!
