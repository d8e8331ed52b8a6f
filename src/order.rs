//! Descending orders over integer keys, given as permutations of indices.
use vstd::prelude::*;

verus! {

/// `p` lists each index below `n` exactly once.
pub open spec fn is_permutation(p: Seq<usize>, n: nat) -> bool {
    &&& p.len() == n
    &&& forall|k: int| 0 <= k < p.len() ==> p[k] < n
    &&& forall|a: int, b: int| 0 <= a < p.len() && 0 <= b < p.len() && a != b ==> p[a] != p[b]
}

/// Following `p`, the keys never increase.
pub open spec fn sorted_desc_by(p: Seq<usize>, keys: Seq<i128>) -> bool {
    forall|a: int, b: int|
        0 <= a < b < p.len() ==> keys[p[a] as int] >= keys[p[b] as int]
}

/// The indices of `keys`, ordered so that the keys never increase; indices
/// with equal keys keep their relative order.
pub fn order_desc(keys: &Vec<i128>) -> (r: Vec<usize>)
    ensures
        is_permutation(r@, keys@.len()),
        sorted_desc_by(r@, keys@),
{
    let mut r: Vec<usize> = Vec::new();
    let n = keys.len();
    let mut i: usize = 0;
    while i < n
        invariant
            n == keys@.len(),
            i <= n,
            is_permutation(r@, i as nat),
            sorted_desc_by(r@, keys@),
        decreases n - i,
    {
        let ki = keys[i];
        let mut pos: usize = 0;
        while pos < r.len() && keys[r[pos]] >= ki
            invariant
                pos <= r@.len(),
                n == keys@.len(),
                is_permutation(r@, i as nat),
                i < n,
                forall|k: int| 0 <= k < pos ==> keys@[r@[k] as int] >= ki,
            decreases r@.len() - pos,
        {
            pos = pos + 1;
        }
        let ghost old_r = r@;
        r.insert(pos, i);
        assert forall|k: int| 0 <= k < r@.len() implies r@[k] < i + 1 by {
            if k < pos {
                assert(r@[k] == old_r[k]);
            } else if k > pos {
                assert(r@[k] == old_r[k - 1]);
            }
        }
        assert forall|a: int, b: int| 0 <= a < r@.len() && 0 <= b < r@.len() && a != b
            implies r@[a] != r@[b] by {
            if a != pos && b != pos {
                let oa = if a < pos { a } else { a - 1 };
                let ob = if b < pos { b } else { b - 1 };
                assert(r@[a] == old_r[oa]);
                assert(r@[b] == old_r[ob]);
            } else if a == pos {
                let ob = if b < pos { b } else { b - 1 };
                assert(r@[b] == old_r[ob]);
            } else {
                let oa = if a < pos { a } else { a - 1 };
                assert(r@[a] == old_r[oa]);
            }
        }
        assert forall|a: int, b: int| 0 <= a < b < r@.len()
            implies keys@[r@[a] as int] >= keys@[r@[b] as int] by {
            if pos < old_r.len() {
                assert(keys@[old_r[pos as int] as int] < ki);
            }
            if b < pos {
                assert(r@[a] == old_r[a] && r@[b] == old_r[b]);
            } else if b == pos {
                assert(r@[a] == old_r[a]);
            } else if a < pos {
                assert(r@[a] == old_r[a] && r@[b] == old_r[b - 1]);
                assert(keys@[old_r[b - 1] as int] <= keys@[old_r[pos as int] as int]);
            } else if a == pos {
                assert(r@[b] == old_r[b - 1]);
                assert(keys@[old_r[b - 1] as int] <= keys@[old_r[pos as int] as int]);
            } else {
                assert(r@[a] == old_r[a - 1] && r@[b] == old_r[b - 1]);
            }
        }
        i = i + 1;
    }
    r
}

} // verus!
