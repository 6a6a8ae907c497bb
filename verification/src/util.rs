//! Small verified helpers over byte vectors and vectors of copyable
//! values.

use vstd::prelude::*;

verus! {

/// A fresh vector with the same contents as `v`.
pub fn copy_vec<T: Copy>(v: &Vec<T>) -> (r: Vec<T>)
    ensures
        r@ == v@,
{
    let mut out: Vec<T> = Vec::new();
    let mut idx: usize = 0;
    proof {
        assert(v@.take(0int) =~= Seq::<T>::empty());
    }
    while idx < v.len()
        invariant
            idx <= v.len(),
            out@ == v@.take(idx as int),
        decreases v.len() - idx,
    {
        out.push(v[idx]);
        proof {
            assert(v@.take(idx as int).push(v@[idx as int]) =~= v@.take(idx as int + 1));
        }
        idx = idx + 1;
    }
    proof {
        assert(v@.take(v@.len() as int) =~= v@);
    }
    out
}

/// Whether two byte vectors hold the same bytes.
pub fn bytes_eq(a: &Vec<u8>, b: &Vec<u8>) -> (r: bool)
    ensures
        r == (a@ == b@),
{
    if a.len() != b.len() {
        proof {
            assert(a@ != b@);
        }
        return false;
    }
    let mut idx: usize = 0;
    while idx < a.len()
        invariant
            idx <= a.len(),
            a@.len() == b@.len(),
            forall|j: int| 0 <= j < idx ==> a@[j] == b@[j],
        decreases a.len() - idx,
    {
        if a[idx] != b[idx] {
            return false;
        }
        idx = idx + 1;
    }
    proof {
        assert(a@ =~= b@);
    }
    true
}

} // verus!
