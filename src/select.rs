use vstd::prelude::*;
use crate::geometry::CropError;

verus! {

/// `i` is the first position of a greatest key in `keys`.
pub open spec fn is_first_max(keys: Seq<i64>, i: int) -> bool {
    &&& 0 <= i < keys.len()
    &&& forall|j: int| 0 <= j < keys.len() ==> keys[j] <= keys[i]
    &&& forall|j: int| 0 <= j < i ==> keys[j] < keys[i]
}

/// Picks the winning candidate from the order keys of their scores, given in
/// enumeration order: the first candidate whose key is strictly greater than
/// every key before it and not less than any after it.
pub fn select_top(keys: &Vec<i64>) -> (r: Result<usize, CropError>)
    ensures
        keys@.len() == 0 <==> r == Err::<usize, CropError>(CropError::NoCropFound),
        r is Ok ==> is_first_max(keys@, r->Ok_0 as int),
        r is Err ==> r == Err::<usize, CropError>(CropError::NoCropFound),
{
    if keys.len() == 0 {
        return Err(CropError::NoCropFound);
    }
    let mut best: usize = 0;
    let mut k: usize = 1;
    while k < keys.len()
        invariant
            1 <= k <= keys@.len(),
            best < k,
            forall|j: int| 0 <= j < k ==> keys@[j] <= keys@[best as int],
            forall|j: int| 0 <= j < best ==> keys@[j] < keys@[best as int],
        decreases keys@.len() - k,
    {
        if keys[k] > keys[best] {
            best = k;
        }
        k = k + 1;
    }
    Ok(best)
}

/// The position that the selection picks is unique: any two positions that are
/// both the first greatest key are the same.
pub proof fn lemma_first_max_unique(keys: Seq<i64>, i: int, j: int)
    requires
        is_first_max(keys, i),
        is_first_max(keys, j),
    ensures
        i == j,
{
    if i < j {
        assert(keys[i] < keys[j]);
        assert(keys[i] <= keys[j] && keys[j] <= keys[i]);
    } else if j < i {
        assert(keys[j] < keys[i]);
    }
}

} // verus!
