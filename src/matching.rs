use crate::point::Point;
use vstd::prelude::*;

verus! {

/// One candidate of a nearest-neighbour search: the query descriptor's index
/// in the current frame, the reference descriptor's index in the previous
/// frame, and their Hamming distance.
#[derive(Clone, Copy, Debug, PartialEq, Eq, Structural)]
pub struct DMatch {
    pub query_idx: i32,
    pub train_idx: i32,
    pub distance: u32,
}

/// A detected keypoint, at integer pixel position, with its descriptor.
#[derive(Debug)]
pub struct Feature {
    pub point: Point,
    pub descriptor: Vec<u8>,
}

/// The features of one frame; a feature's index is its identity for matching.
#[derive(Debug)]
pub struct DescriptorSet {
    pub features: Vec<Feature>,
}

/// The ratio test's threshold as the fraction `num / den`.
#[derive(Clone, Copy, Debug, PartialEq, Eq, Structural)]
pub struct RatioThreshold {
    pub num: u32,
    pub den: u32,
}

/// The keypoint positions of a descriptor set, in order.
pub open spec fn points_of(s: DescriptorSet) -> Seq<Point> {
    s.features@.map_values(|f: Feature| f.point)
}

/// The candidate lists of a two-nearest-neighbour search, one per query.
pub open spec fn candidate_lists(knn: Seq<Vec<DMatch>>) -> Seq<Seq<DMatch>> {
    knn.map_values(|c: Vec<DMatch>| c@)
}

/// The best candidate is clearly closer than the second best:
/// `best < (num / den) * second`.
pub open spec fn passes_ratio(c: Seq<DMatch>, r: RatioThreshold) -> bool {
    c.len() >= 2 && c[0].distance * r.den < c[1].distance * r.num
}

/// Both indices of `m` fall inside sets of `nq` query and `nt` reference features.
pub open spec fn in_bounds(m: DMatch, nq: int, nt: int) -> bool {
    0 <= m.query_idx < nq && 0 <= m.train_idx < nt
}

pub open spec fn accepted(c: Seq<DMatch>, r: RatioThreshold, nq: int, nt: int) -> bool {
    passes_ratio(c, r) && in_bounds(c[0], nq, nt)
}

/// The pixel pair that a candidate list's best match stands for.
pub open spec fn pair_of(c: Seq<DMatch>, cur: Seq<Point>, prev: Seq<Point>) -> (Point, Point) {
    (cur[c[0].query_idx as int], prev[c[0].train_idx as int])
}

/// The correspondences that survive the ratio test and the bounds check, in
/// query order.
pub open spec fn ratio_filtered(
    knn: Seq<Seq<DMatch>>,
    r: RatioThreshold,
    cur: Seq<Point>,
    prev: Seq<Point>,
) -> Seq<(Point, Point)>
    decreases knn.len(),
{
    if knn.len() == 0 {
        seq![]
    } else {
        let rest = ratio_filtered(knn.drop_last(), r, cur, prev);
        if accepted(knn.last(), r, cur.len() as int, prev.len() as int) {
            rest.push(pair_of(knn.last(), cur, prev))
        } else {
            rest
        }
    }
}

/// A distance times a factor, without overflow.
fn scaled(distance: u32, factor: u32) -> (r: u64)
    ensures
        r == distance * factor,
{
    proof {
        assert(distance * factor <= 0xffff_ffffnat * 0xffff_ffffnat) by (nonlinear_arith)
            requires
                distance <= 0xffff_ffff,
                factor <= 0xffff_ffff,
        ;
    }
    (distance as u64) * (factor as u64)
}

/// Keeps each query whose two best candidates pass the ratio test and whose
/// best candidate's indices are in bounds, and maps it to its pixel pair
/// (current point, previous point).
pub fn ratio_candidates(
    knn: &Vec<Vec<DMatch>>,
    current: &DescriptorSet,
    previous: &DescriptorSet,
    ratio: RatioThreshold,
) -> (r: Vec<(Point, Point)>)
    ensures
        r@ == ratio_filtered(
            candidate_lists(knn@),
            ratio,
            points_of(*current),
            points_of(*previous),
        ),
{
    let ghost lists = candidate_lists(knn@);
    let ghost cur = points_of(*current);
    let ghost prev = points_of(*previous);
    let mut out: Vec<(Point, Point)> = Vec::new();
    let mut i: usize = 0;
    while i < knn.len()
        invariant
            i <= knn.len(),
            lists == candidate_lists(knn@),
            cur == points_of(*current),
            prev == points_of(*previous),
            out@ == ratio_filtered(lists.take(i as int), ratio, cur, prev),
        decreases knn.len() - i,
    {
        let c = &knn[i];
        assert(lists.take(i + 1).drop_last() =~= lists.take(i as int));
        assert(lists.take(i + 1).last() == c@);
        if c.len() >= 2 {
            let best = c[0];
            let second = c[1];
            if scaled(best.distance, ratio.den) < scaled(second.distance, ratio.num)
                && 0 <= best.query_idx && (best.query_idx as usize)
                < current.features.len() && 0 <= best.train_idx && (best.train_idx as usize)
                < previous.features.len() {
                let u = current.features[best.query_idx as usize].point;
                let v = previous.features[best.train_idx as usize].point;
                out.push((u, v));
            }
        }
        i = i + 1;
    }
    assert(lists.take(knn.len() as int) =~= lists);
    out
}

/// The positions in `knn` of the queries that the ratio test and the bounds
/// check accept, in order.
pub open spec fn kept_queries(knn: Seq<Seq<DMatch>>, r: RatioThreshold, nq: int, nt: int) -> Seq<
    int,
>
    decreases knn.len(),
{
    if knn.len() == 0 {
        seq![]
    } else {
        let rest = kept_queries(knn.drop_last(), r, nq, nt);
        if accepted(knn.last(), r, nq, nt) {
            rest.push(knn.len() - 1)
        } else {
            rest
        }
    }
}

/// Every correspondence that survives the ratio test comes from one query
/// whose best candidate is closer than the threshold times the second best
/// (`best.distance * den < second.distance * num`), and whose two indices lie
/// inside the current and previous feature sets; its points are those
/// features' detected positions.
pub proof fn lemma_ratio_filtered_sound(
    knn: Seq<Seq<DMatch>>,
    r: RatioThreshold,
    cur: Seq<Point>,
    prev: Seq<Point>,
)
    ensures
        ratio_filtered(knn, r, cur, prev).len() == kept_queries(
            knn,
            r,
            cur.len() as int,
            prev.len() as int,
        ).len(),
        ratio_filtered(knn, r, cur, prev).len() <= knn.len(),
        forall|k: int|
            0 <= k < ratio_filtered(knn, r, cur, prev).len() ==> {
                let i = #[trigger] kept_queries(knn, r, cur.len() as int, prev.len() as int)[k];
                &&& 0 <= i < knn.len()
                &&& passes_ratio(knn[i], r)
                &&& knn[i][0].distance * r.den < knn[i][1].distance * r.num
                &&& in_bounds(knn[i][0], cur.len() as int, prev.len() as int)
                &&& ratio_filtered(knn, r, cur, prev)[k] == pair_of(knn[i], cur, prev)
            },
    decreases knn.len(),
{
    if knn.len() > 0 {
        lemma_ratio_filtered_sound(knn.drop_last(), r, cur, prev);
    }
}

} // verus!
