use crate::point::Point;
use vstd::prelude::*;

verus! {

/// What a robust fundamental-matrix fit over the candidate correspondences
/// reported: no model could be fitted, or one inlier flag per candidate.
#[derive(Debug)]
pub enum FitOutcome {
    Degenerate,
    Inliers(Vec<bool>),
}

/// The items of `pairs` whose flag in `mask` is set; an item without a flag
/// is dropped.
pub open spec fn masked(pairs: Seq<(Point, Point)>, mask: Seq<bool>) -> Seq<(Point, Point)>
    decreases pairs.len(),
{
    if pairs.len() == 0 {
        seq![]
    } else {
        let rest = masked(pairs.drop_last(), mask);
        let i = pairs.len() - 1;
        if i < mask.len() && mask[i] {
            rest.push(pairs.last())
        } else {
            rest
        }
    }
}

/// The correspondences that geometric verification keeps: none when the fit
/// is degenerate, else the inliers.
pub open spec fn verified(pairs: Seq<(Point, Point)>, fit: FitOutcome) -> Seq<(Point, Point)> {
    match fit {
        FitOutcome::Degenerate => seq![],
        FitOutcome::Inliers(mask) => masked(pairs, mask@),
    }
}

/// Keeps the candidates that the fit flagged as inliers.
pub fn keep_inliers(pairs: &Vec<(Point, Point)>, fit: &FitOutcome) -> (r: Vec<(Point, Point)>)
    ensures
        r@ == verified(pairs@, *fit),
{
    match fit {
        FitOutcome::Degenerate => Vec::new(),
        FitOutcome::Inliers(mask) => {
            let mut out: Vec<(Point, Point)> = Vec::new();
            let mut i: usize = 0;
            while i < pairs.len()
                invariant
                    i <= pairs.len(),
                    out@ == masked(pairs@.take(i as int), mask@),
                decreases pairs.len() - i,
            {
                assert(pairs@.take(i + 1).drop_last() =~= pairs@.take(i as int));
                if i < mask.len() && mask[i] {
                    out.push(pairs[i]);
                }
                i = i + 1;
            }
            assert(pairs@.take(pairs.len() as int) =~= pairs@);
            out
        },
    }
}

/// The positions in `pairs` of the items that `mask` keeps, in order.
pub open spec fn masked_positions(n: nat, mask: Seq<bool>) -> Seq<int>
    decreases n,
{
    if n == 0 {
        seq![]
    } else {
        let rest = masked_positions((n - 1) as nat, mask);
        if n - 1 < mask.len() && mask[n - 1] {
            rest.push(n - 1)
        } else {
            rest
        }
    }
}

/// Geometric verification never adds a correspondence: what it keeps is a
/// subsequence of the ratio-filtered candidates, so it has at most as many
/// items, each one of the candidates.
pub proof fn lemma_verified_subset(pairs: Seq<(Point, Point)>, fit: FitOutcome)
    ensures
        verified(pairs, fit).len() <= pairs.len(),
        forall|k: int|
            0 <= k < verified(pairs, fit).len() ==> pairs.contains(
                #[trigger] verified(pairs, fit)[k],
            ),
{
    if let FitOutcome::Inliers(mask) = fit {
        lemma_masked_positions(pairs, mask@);
        assert forall|k: int| 0 <= k < verified(pairs, fit).len() implies pairs.contains(
            #[trigger] verified(pairs, fit)[k],
        ) by {
            let i = masked_positions(pairs.len(), mask@)[k];
            assert(pairs[i] == verified(pairs, fit)[k]);
        }
    }
}

proof fn lemma_masked_positions(pairs: Seq<(Point, Point)>, mask: Seq<bool>)
    ensures
        masked(pairs, mask).len() == masked_positions(pairs.len(), mask).len(),
        masked(pairs, mask).len() <= pairs.len(),
        forall|k: int|
            0 <= k < masked(pairs, mask).len() ==> {
                let i = #[trigger] masked_positions(pairs.len(), mask)[k];
                &&& 0 <= i < pairs.len()
                &&& masked(pairs, mask)[k] == pairs[i]
            },
    decreases pairs.len(),
{
    if pairs.len() > 0 {
        let rest = pairs.drop_last();
        lemma_masked_positions(rest, mask);
        assert(rest.len() == (pairs.len() - 1) as nat);
        assert forall|k: int| 0 <= k < masked(pairs, mask).len() implies {
            let i = #[trigger] masked_positions(pairs.len(), mask)[k];
            &&& 0 <= i < pairs.len()
            &&& masked(pairs, mask)[k] == pairs[i]
        } by {
            if k < masked(rest, mask).len() {
                let i = masked_positions(rest.len(), mask)[k];
                assert(rest[i] == pairs[i]);
            }
        }
    }
}

} // verus!
