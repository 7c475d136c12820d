use crate::camera::{
    determinant, pixel_defined, pixel_of, ray_of, Camera, ConstructionError, Intrinsics, Ray,
};
use crate::inliers::{keep_inliers, lemma_verified_subset, verified, FitOutcome};
use crate::matching::{
    candidate_lists, kept_queries, lemma_ratio_filtered_sound, points_of,
    ratio_candidates, ratio_filtered, DMatch, DescriptorSet, RatioThreshold,
};
use crate::point::Point;
use vstd::prelude::*;

verus! {

/// The ratio test's threshold unless another is given: 3/4.
pub const DEFAULT_RATIO_NUM: u32 = 3;

pub const DEFAULT_RATIO_DEN: u32 = 4;

/// The correspondences that one frame yields: none without a previous frame,
/// else the ratio-filtered candidates that geometric verification keeps.
pub open spec fn frame_correspondences(
    previous: Option<DescriptorSet>,
    current: DescriptorSet,
    knn: Seq<Seq<DMatch>>,
    ratio: RatioThreshold,
    fit: FitOutcome,
) -> Seq<(Point, Point)> {
    match previous {
        None => seq![],
        Some(prev) => verified(
            ratio_filtered(knn, ratio, points_of(current), points_of(prev)),
            fit,
        ),
    }
}

/// The per-frame pipeline state: the camera model, the ratio-test threshold
/// and the previous frame's features, absent before the first frame.
///
/// A frame whose detection or description fails never reaches `extract`, so
/// the previous frame stays; every frame that does reach it replaces the
/// previous frame, whatever its matches.
pub struct Extractor {
    camera: Camera,
    ratio: RatioThreshold,
    last: Option<DescriptorSet>,
}

impl Extractor {
    pub closed spec fn intrinsics(&self) -> Intrinsics {
        self.camera.intrinsics()
    }

    pub closed spec fn ratio(&self) -> RatioThreshold {
        self.ratio
    }

    pub closed spec fn previous(&self) -> Option<DescriptorSet> {
        self.last
    }

    pub closed spec fn wf(&self) -> bool {
        self.camera.wf()
    }

    /// A pipeline with the default ratio threshold; fails exactly when `k` is
    /// singular.
    pub fn new(k: Intrinsics) -> (r: Result<Extractor, ConstructionError>)
        ensures
            determinant(k) == 0 <==> r is Err,
            r matches Ok(e) ==> e.wf() && e.intrinsics() == k && e.previous() is None
                && e.ratio() == (RatioThreshold { num: DEFAULT_RATIO_NUM, den: DEFAULT_RATIO_DEN }),
            r matches Err(e) ==> e == ConstructionError::SingularIntrinsics,
    {
        Extractor::with_ratio(k, RatioThreshold { num: DEFAULT_RATIO_NUM, den: DEFAULT_RATIO_DEN })
    }

    /// A pipeline with the given ratio threshold; fails exactly when `k` is
    /// singular.
    pub fn with_ratio(k: Intrinsics, ratio: RatioThreshold) -> (r: Result<
        Extractor,
        ConstructionError,
    >)
        ensures
            determinant(k) == 0 <==> r is Err,
            r matches Ok(e) ==> e.wf() && e.intrinsics() == k && e.previous() is None && e.ratio()
                == ratio,
            r matches Err(e) ==> e == ConstructionError::SingularIntrinsics,
    {
        match Camera::new(k) {
            Ok(camera) => Ok(Extractor { camera, ratio, last: None }),
            Err(e) => Err(e),
        }
    }

    /// `Some(())` once a frame has been processed.
    pub fn check_last(&self) -> (r: Option<()>)
        ensures
            r is Some <==> self.previous() is Some,
    {
        match &self.last {
            Some(_) => Some(()),
            None => None,
        }
    }

    pub fn has_previous_frame(&self) -> (r: bool)
        ensures
            r == self.previous() is Some,
    {
        self.last.is_some()
    }

    /// The previous frame's features, the reference for matching the next one.
    pub fn last(&self) -> (r: Option<&DescriptorSet>)
        ensures
            r is None <==> self.previous() is None,
            r matches Some(s) ==> self.previous() == Some(*s),
    {
        self.last.as_ref()
    }

    /// The candidates that pass the ratio test and the bounds check, as
    /// (current, previous) pixel pairs; none before the first frame. These
    /// are the pairs whose rays the geometric fit takes.
    pub fn ratio_candidates(&self, current: &DescriptorSet, knn: &Vec<Vec<DMatch>>) -> (r: Vec<
        (Point, Point),
    >)
        ensures
            self.previous() is None ==> r@ == Seq::<(Point, Point)>::empty(),
            self.previous() matches Some(prev) ==> r@ == ratio_filtered(
                candidate_lists(knn@),
                self.ratio(),
                points_of(*current),
                points_of(prev),
            ),
    {
        match &self.last {
            Some(prev) => ratio_candidates(knn, current, prev, self.ratio),
            None => Vec::new(),
        }
    }

    /// The ratio test, the bounds check, then geometric verification: the
    /// candidates that `fit` flags as inliers, none when the fit is
    /// degenerate or before the first frame.
    pub fn filter_matches(
        &self,
        current: &DescriptorSet,
        knn: &Vec<Vec<DMatch>>,
        fit: &FitOutcome,
    ) -> (r: Vec<(Point, Point)>)
        ensures
            r@ == frame_correspondences(
                self.previous(),
                *current,
                candidate_lists(knn@),
                self.ratio(),
                *fit,
            ),
    {
        match &self.last {
            Some(_) => {
                let candidates = self.ratio_candidates(current, knn);
                keep_inliers(&candidates, fit)
            },
            None => Vec::new(),
        }
    }

    /// The exact ray of a pixel.
    pub fn normalize_point(&self, point: Point) -> (r: Ray)
        requires
            self.wf(),
        ensures
            r == ray_of(self.intrinsics(), point),
    {
        self.camera.to_ray(point)
    }

    /// The pixel of a ray; `None` exactly where 128-bit arithmetic cannot
    /// hold the intermediate values.
    pub fn denormalize_point(&self, ray: Ray) -> (r: Option<Point>)
        ensures
            r is Some <==> pixel_defined(self.intrinsics(), ray),
            r matches Some(p) ==> p == pixel_of(self.intrinsics(), ray),
    {
        self.camera.to_pixel(ray)
    }

    /// The rays of both sides of each pair: the input of the geometric fit.
    pub fn normalize_pairs(&self, pairs: &Vec<(Point, Point)>) -> (r: (Vec<Ray>, Vec<Ray>))
        requires
            self.wf(),
        ensures
            r.0@.len() == pairs@.len(),
            r.1@.len() == pairs@.len(),
            forall|i: int|
                0 <= i < pairs@.len() ==> r.0@[i] == ray_of(self.intrinsics(), #[trigger] pairs@[i].0)
                    && r.1@[i] == ray_of(self.intrinsics(), pairs@[i].1),
    {
        let mut current: Vec<Ray> = Vec::new();
        let mut previous: Vec<Ray> = Vec::new();
        let mut i: usize = 0;
        while i < pairs.len()
            invariant
                self.wf(),
                i <= pairs@.len(),
                current@.len() == i,
                previous@.len() == i,
                forall|j: int|
                    0 <= j < i ==> current@[j] == ray_of(self.intrinsics(), #[trigger] pairs@[j].0)
                        && previous@[j] == ray_of(self.intrinsics(), pairs@[j].1),
            decreases pairs.len() - i,
        {
            let (u, v) = pairs[i];
            let ru = self.camera.to_ray(u);
            let rv = self.camera.to_ray(v);
            current.push(ru);
            previous.push(rv);
            assert(forall|j: int|
                0 <= j < i ==> current@[j] == ray_of(self.intrinsics(), #[trigger] pairs@[j].0)
                    && previous@[j] == ray_of(self.intrinsics(), pairs@[j].1));
            i = i + 1;
        }
        (current, previous)
    }

    /// Processes one frame whose features are `current`. `knn` holds, for
    /// each current feature, its two nearest previous features, and `fit` the
    /// geometric fit over the ray coordinates of the ratio-filtered pairs.
    /// Returns the verified (current, previous) pixel pairs, none on the first
    /// frame, and makes `current` the previous frame.
    pub fn extract(
        &mut self,
        current: DescriptorSet,
        knn: &Vec<Vec<DMatch>>,
        fit: &FitOutcome,
    ) -> (r: Vec<(Point, Point)>)
        requires
            old(self).wf(),
        ensures
            final(self).wf(),
            final(self).intrinsics() == old(self).intrinsics(),
            final(self).ratio() == old(self).ratio(),
            final(self).previous() == Some(current),
            old(self).previous() is None ==> r@ == Seq::<(Point, Point)>::empty(),
            r@ == frame_correspondences(
                old(self).previous(),
                current,
                candidate_lists(knn@),
                old(self).ratio(),
                *fit,
            ),
    {
        let matches = self.filter_matches(&current, knn, fit);
        self.last = Some(current);
        matches
    }
}

/// Every returned correspondence pairs a detected position of the current
/// frame with a detected position of the previous frame, so each refers to
/// an index inside its frame's feature count; geometric verification returns
/// no more pairs than the ratio test kept.
pub proof fn lemma_correspondences_from_detections(
    previous: DescriptorSet,
    current: DescriptorSet,
    knn: Seq<Seq<DMatch>>,
    ratio: RatioThreshold,
    fit: FitOutcome,
)
    ensures
        frame_correspondences(Some(previous), current, knn, ratio, fit).len() <= ratio_filtered(
            knn,
            ratio,
            points_of(current),
            points_of(previous),
        ).len(),
        forall|k: int|
            0 <= k < frame_correspondences(Some(previous), current, knn, ratio, fit).len() ==> {
                let (u, v) = #[trigger] frame_correspondences(
                    Some(previous),
                    current,
                    knn,
                    ratio,
                    fit,
                )[k];
                points_of(current).contains(u) && points_of(previous).contains(v)
            },
{
    let cur = points_of(current);
    let prev = points_of(previous);
    let candidates = ratio_filtered(knn, ratio, cur, prev);
    let out = frame_correspondences(Some(previous), current, knn, ratio, fit);
    lemma_verified_subset(candidates, fit);
    lemma_ratio_filtered_sound(knn, ratio, cur, prev);
    assert forall|k: int| 0 <= k < out.len() implies cur.contains(#[trigger] out[k].0)
        && prev.contains(out[k].1) by {
        assert(candidates.contains(out[k]));
        let j = choose|j: int| 0 <= j < candidates.len() && candidates[j] == out[k];
        let i = kept_queries(knn, ratio, cur.len() as int, prev.len() as int)[j];
        let qi = knn[i][0].query_idx as int;
        let ti = knn[i][0].train_idx as int;
        assert(out[k] == (cur[qi], prev[ti]));
    }
}

} // verus!
