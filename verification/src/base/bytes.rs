//! Small operations on bytes.
use vstd::prelude::*;

verus! {

/// Whether two byte strings are the same.
pub fn same_bytes(left: &[u8], right: &[u8]) -> (same: bool)
    ensures
        same == (left@ == right@),
{
    if left.len() != right.len() {
        return false;
    }
    let mut at: usize = 0;
    while at < left.len()
        invariant
            at <= left.len(),
            left@.len() == right@.len(),
            forall|i: int| #![trigger left@[i]] 0 <= i < at ==> left@[i] == right@[i],
        decreases left.len() - at,
    {
        if left[at] != right[at] {
            assert(left@[at as int] != right@[at as int]);
            return false;
        }
        at = at + 1;
    }
    assert(left@ =~= right@);
    true
}

/// A copy of some bytes.
pub fn copy_of(bytes: &[u8]) -> (copy: Vec<u8>)
    ensures
        copy@ == bytes@,
{
    let mut copy: Vec<u8> = Vec::new();
    copy.extend_from_slice(bytes);
    assert(copy@ =~= bytes@);
    copy
}

} // verus!
