use vstd::prelude::*;
use crate::geometry::{CropError, CropSize, inside};
use crate::plan::{Plan, rescale, rescaled, wf};
use crate::select::{is_first_max, select_top};

verus! {

/// The outcome of an analysis in original-image coordinates: every
/// candidate, in enumeration order, and the winner.
#[derive(Debug, PartialEq, Eq)]
pub struct Selection {
    pub crops: Vec<CropSize>,
    pub top_index: usize,
    pub top_crop: CropSize,
}

/// Picks the winner among the scored candidates of a plan and maps every
/// rectangle back to original-image coordinates. `keys[i]` orders the score
/// of `candidates[i]`.
pub fn finish(p: &Plan, candidates: &Vec<CropSize>, keys: &Vec<i64>) -> (r: Result<Selection, CropError>)
    requires
        wf(*p),
        forall|i: int| 0 <= i < candidates@.len()
            ==> inside(#[trigger] candidates@[i], p.work_width as nat, p.work_height as nat),
    ensures
        r == Err::<Selection, CropError>(CropError::InvalidInput) <==> keys@.len() != candidates@.len(),
        r == Err::<Selection, CropError>(CropError::NoCropFound)
            <==> (keys@.len() == candidates@.len() && candidates@.len() == 0),
        r is Err ==> r == Err::<Selection, CropError>(CropError::InvalidInput)
            || r == Err::<Selection, CropError>(CropError::NoCropFound),
        r is Ok ==> ({
            let s = r->Ok_0;
            &&& is_first_max(keys@, s.top_index as int)
            &&& s.top_crop == rescaled(candidates@[s.top_index as int], *p)
            &&& inside(s.top_crop, p.image_width as nat, p.image_height as nat)
            &&& s.crops@.len() == candidates@.len()
            &&& forall|i: int| 0 <= i < candidates@.len()
                ==> #[trigger] s.crops@[i] == rescaled(candidates@[i], *p)
                    && inside(s.crops@[i], p.image_width as nat, p.image_height as nat)
        }),
{
    if keys.len() != candidates.len() {
        return Err(CropError::InvalidInput);
    }
    let top = select_top(keys);
    match top {
        Err(e) => Err(e),
        Ok(t) => {
            let mut crops: Vec<CropSize> = Vec::new();
            let mut k: usize = 0;
            while k < candidates.len()
                invariant
                    wf(*p),
                    forall|i: int| 0 <= i < candidates@.len()
                        ==> inside(#[trigger] candidates@[i], p.work_width as nat, p.work_height as nat),
                    k <= candidates@.len(),
                    crops@.len() == k,
                    forall|i: int| 0 <= i < k
                        ==> #[trigger] crops@[i] == rescaled(candidates@[i], *p)
                            && inside(crops@[i], p.image_width as nat, p.image_height as nat),
                decreases candidates@.len() - k,
            {
                let c = rescale(&candidates[k], p);
                crops.push(c);
                k = k + 1;
            }
            let top_crop = rescale(&candidates[t], p);
            Ok(Selection { crops, top_index: t, top_crop })
        },
    }
}

/// Selection is deterministic: two winners picked from the same scored
/// candidates under the same plan are the same candidate and the same rectangle.
pub proof fn lemma_selection_deterministic(p: Plan, candidates: Seq<CropSize>, keys: Seq<i64>, i: int, j: int)
    requires
        is_first_max(keys, i),
        is_first_max(keys, j),
        keys.len() == candidates.len(),
    ensures
        i == j,
        rescaled(candidates[i], p) == rescaled(candidates[j], p),
{
    crate::select::lemma_first_max_unique(keys, i, j);
}

} // verus!
