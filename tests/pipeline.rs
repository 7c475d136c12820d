use rustslam::{
    keep_inliers, ratio_candidates, Camera, ConstructionError, DMatch, DescriptorSet, Extractor,
    Feature, FitOutcome, Intrinsics, Point, RatioThreshold, Ray,
};

fn feature(x: i32, y: i32, byte: u8) -> Feature {
    Feature { point: Point::new(x, y), descriptor: vec![byte; 32] }
}

fn frame(points: &[(i32, i32)]) -> DescriptorSet {
    DescriptorSet {
        features: points
            .iter()
            .enumerate()
            .map(|(i, &(x, y))| feature(x, y, i as u8))
            .collect(),
    }
}

fn dm(query_idx: i32, train_idx: i32, distance: u32) -> DMatch {
    DMatch { query_idx, train_idx, distance }
}

fn unit_camera() -> Intrinsics {
    Intrinsics::for_resolution(1920, 1080)
}

#[test]
fn resolution_intrinsics_centre_principal_point() {
    let k = Intrinsics::for_resolution(1920, 1080);
    assert_eq!(k.m, [[1, 0, 960], [0, 1, 540], [0, 0, 1]]);
    let k = Intrinsics::for_resolution(641, 3);
    assert_eq!(k.m, [[1, 0, 320], [0, 1, 1], [0, 0, 1]]);
}

#[test]
fn singular_intrinsics_are_refused() {
    let k = Intrinsics { m: [[1, 2, 3], [2, 4, 6], [0, 0, 1]] };
    assert!(matches!(Camera::new(k), Err(ConstructionError::SingularIntrinsics)));
    assert!(matches!(Extractor::new(k), Err(ConstructionError::SingularIntrinsics)));
    let zero = Intrinsics { m: [[0; 3]; 3] };
    assert!(Extractor::new(zero).is_err());
}

fn ray(x: i128, y: i128, den: i128) -> Ray {
    Ray { x, y, den }
}

#[test]
fn unit_focal_rays_are_offsets_from_the_centre() {
    let camera = Camera::new(unit_camera()).unwrap();
    assert_eq!(camera.to_ray(Point::new(960, 540)), ray(0, 0, 1));
    assert_eq!(camera.to_ray(Point::new(0, 0)), ray(-960, -540, 1));
    assert_eq!(camera.to_ray(Point::new(1000, 600)), ray(40, 60, 1));
    assert_eq!(camera.to_pixel(ray(40, 60, 1)), Some(Point::new(1000, 600)));
}

#[test]
fn rays_are_exact_fractions() {
    let k = Intrinsics { m: [[2, 0, 0], [0, 2, 0], [0, 0, 1]] };
    let camera = Camera::new(k).unwrap();
    // (5 / 2, 3 / 2) held as (10 / 4, 6 / 4)
    assert_eq!(camera.to_ray(Point::new(5, 3)), ray(10, 6, 4));
    assert_eq!(camera.to_pixel(ray(10, 6, 4)), Some(Point::new(5, 3)));
    // pixels of rays that fall between pixels round toward zero
    assert_eq!(camera.to_pixel(ray(5, 3, 4)), Some(Point::new(2, 1)));
    assert_eq!(camera.to_pixel(ray(-5, -3, 4)), Some(Point::new(-2, -1)));
}

#[test]
fn focal_length_above_one_round_trips() {
    let k = Intrinsics { m: [[3, 0, 0], [0, 3, 0], [0, 0, 1]] };
    let camera = Camera::new(k).unwrap();
    let p = Point::new(5, 5);
    assert_eq!(camera.to_ray(p), ray(15, 15, 9));
    assert_eq!(camera.to_pixel(camera.to_ray(p)), Some(p));
    let k = Intrinsics { m: [[718, 1, 607], [0, 719, 185], [0, 0, 1]] };
    let camera = Camera::new(k).unwrap();
    for &(x, y) in &[(0, 0), (1240, 375), (607, 185), (13, 301)] {
        let p = Point::new(x, y);
        assert_eq!(camera.to_pixel(camera.to_ray(p)), Some(p));
    }
}

#[test]
fn general_intrinsics_use_the_exact_inverse() {
    // inverse of [[1, 2, 10], [0, 1, 20], [0, 0, 1]] is [[1, -2, 30], [0, 1, -20], [0, 0, 1]]
    let k = Intrinsics { m: [[1, 2, 10], [0, 1, 20], [0, 0, 1]] };
    let camera = Camera::new(k).unwrap();
    assert_eq!(camera.to_ray(Point::new(7, 9)), ray(7 - 18 + 30, 9 - 20, 1));
    assert_eq!(camera.to_pixel(ray(19, -11, 1)), Some(Point::new(7, 9)));
}

#[test]
fn negative_determinant_round_trip() {
    let k = Intrinsics { m: [[0, 1, 5], [1, 0, -3], [0, 0, 1]] };
    let camera = Camera::new(k).unwrap();
    assert_eq!(camera.to_ray(Point::new(0, 0)).den, -1);
    for &(x, y) in &[(0, 0), (12, -40), (1919, 1079), (-7, 3)] {
        let p = Point::new(x, y);
        assert_eq!(camera.to_pixel(camera.to_ray(p)), Some(p));
    }
}

#[test]
fn ray_round_trip_inside_image() {
    let camera = Camera::new(unit_camera()).unwrap();
    for &(x, y) in &[(0, 0), (1919, 1079), (960, 540), (17, 1000)] {
        let p = Point::new(x, y);
        assert_eq!(camera.to_pixel(camera.to_ray(p)), Some(p));
    }
}

#[test]
fn pixel_saturates_at_i32_limits() {
    let k = Intrinsics { m: [[i32::MAX, 0, 0], [0, i32::MAX, 0], [0, 0, 1]] };
    let camera = Camera::new(k).unwrap();
    assert_eq!(camera.to_pixel(ray(2, -2, 1)), Some(Point::new(i32::MAX, i32::MIN)));
}

#[test]
fn pixel_of_unrepresentable_ray_is_none() {
    let camera = Camera::new(Intrinsics { m: [[2, 0, 0], [0, 2, 0], [0, 0, 1]] }).unwrap();
    assert_eq!(camera.to_pixel(ray(1, 1, 0)), None);
    assert_eq!(camera.to_pixel(ray(i128::MAX, 0, 1)), None);
    assert_eq!(camera.to_pixel(ray(0, i128::MIN, 1)), None);
}

#[test]
fn normalize_and_denormalize_point() {
    let ext = Extractor::new(unit_camera()).unwrap();
    let r = ext.normalize_point(Point::new(1000, 500));
    assert_eq!(r, ray(40, -40, 1));
    assert_eq!(ext.denormalize_point(r), Some(Point::new(1000, 500)));
    assert_eq!(ext.denormalize_point(ray(1, 1, 0)), None);
}

#[test]
fn normalize_pairs_maps_both_sides() {
    let ext = Extractor::new(unit_camera()).unwrap();
    let pairs = vec![(Point::new(960, 540), Point::new(961, 541)), (Point::new(0, 0), Point::new(10, 20))];
    let (cur, prev) = ext.normalize_pairs(&pairs);
    assert_eq!(cur, vec![ray(0, 0, 1), ray(-960, -540, 1)]);
    assert_eq!(prev, vec![ray(1, 1, 1), ray(-950, -520, 1)]);
}

#[test]
fn ratio_test_keeps_clear_winners_only() {
    let cur = frame(&[(1, 1), (2, 2), (3, 3)]);
    let prev = frame(&[(10, 10), (20, 20), (30, 30)]);
    let ratio = RatioThreshold { num: 3, den: 4 };
    let knn = vec![
        vec![dm(0, 2, 74), dm(0, 1, 100)],
        vec![dm(1, 0, 75), dm(1, 2, 100)],
        vec![dm(2, 1, 0), dm(2, 0, 1)],
    ];
    let out = ratio_candidates(&knn, &cur, &prev, ratio);
    assert_eq!(
        out,
        vec![(Point::new(1, 1), Point::new(30, 30)), (Point::new(3, 3), Point::new(20, 20))]
    );
}

#[test]
fn ratio_test_drops_equal_distances() {
    let cur = frame(&[(1, 1)]);
    let prev = frame(&[(10, 10), (20, 20)]);
    let knn = vec![vec![dm(0, 0, 5), dm(0, 1, 5)]];
    assert!(ratio_candidates(&knn, &cur, &prev, RatioThreshold { num: 3, den: 4 }).is_empty());
    let knn = vec![vec![dm(0, 0, 0), dm(0, 1, 0)]];
    assert!(ratio_candidates(&knn, &cur, &prev, RatioThreshold { num: 3, den: 4 }).is_empty());
}

#[test]
fn ratio_test_needs_two_candidates() {
    let cur = frame(&[(1, 1), (2, 2)]);
    let prev = frame(&[(10, 10)]);
    let knn = vec![vec![dm(0, 0, 1)], vec![]];
    assert!(ratio_candidates(&knn, &cur, &prev, RatioThreshold { num: 3, den: 4 }).is_empty());
}

#[test]
fn out_of_bounds_indices_are_dropped() {
    let cur = frame(&[(1, 1), (2, 2)]);
    let prev = frame(&[(10, 10)]);
    let ratio = RatioThreshold { num: 3, den: 4 };
    let knn = vec![
        vec![dm(0, 1, 1), dm(0, 0, 50)],
        vec![dm(2, 0, 1), dm(2, 0, 50)],
        vec![dm(-1, 0, 1), dm(-1, 0, 50)],
        vec![dm(1, -1, 1), dm(1, 0, 50)],
        vec![dm(1, 0, 1), dm(1, 0, 50)],
    ];
    let out = ratio_candidates(&knn, &cur, &prev, ratio);
    assert_eq!(out, vec![(Point::new(2, 2), Point::new(10, 10))]);
}

#[test]
fn ratio_threshold_is_configurable() {
    let cur = frame(&[(1, 1)]);
    let prev = frame(&[(10, 10), (20, 20)]);
    let knn = vec![vec![dm(0, 0, 65), dm(0, 1, 100)]];
    assert!(ratio_candidates(&knn, &cur, &prev, RatioThreshold { num: 6, den: 10 }).is_empty());
    assert_eq!(ratio_candidates(&knn, &cur, &prev, RatioThreshold { num: 7, den: 10 }).len(), 1);
}

#[test]
fn large_distances_do_not_overflow() {
    let cur = frame(&[(1, 1)]);
    let prev = frame(&[(10, 10), (20, 20)]);
    let knn = vec![vec![dm(0, 1, u32::MAX - 1), dm(0, 0, u32::MAX)]];
    let ratio = RatioThreshold { num: u32::MAX, den: u32::MAX - 1 };
    assert_eq!(
        ratio_candidates(&knn, &cur, &prev, ratio),
        vec![(Point::new(1, 1), Point::new(20, 20))]
    );
}

#[test]
fn inliers_follow_the_mask() {
    let pairs = vec![
        (Point::new(1, 1), Point::new(2, 2)),
        (Point::new(3, 3), Point::new(4, 4)),
        (Point::new(5, 5), Point::new(6, 6)),
    ];
    let fit = FitOutcome::Inliers(vec![true, false, true]);
    assert_eq!(keep_inliers(&pairs, &fit), vec![pairs[0], pairs[2]]);
    let short = FitOutcome::Inliers(vec![false, true]);
    assert_eq!(keep_inliers(&pairs, &short), vec![pairs[1]]);
    assert!(keep_inliers(&pairs, &FitOutcome::Degenerate).is_empty());
    assert!(keep_inliers(&pairs, &FitOutcome::Inliers(vec![])).is_empty());
}

#[test]
fn verification_never_adds_pairs() {
    let pairs = vec![(Point::new(1, 1), Point::new(2, 2)), (Point::new(3, 3), Point::new(4, 4))];
    let fit = FitOutcome::Inliers(vec![true, true, true, true]);
    let kept = keep_inliers(&pairs, &fit);
    assert!(kept.len() <= pairs.len());
    assert!(kept.iter().all(|p| pairs.contains(p)));
}

#[test]
fn first_frame_yields_no_correspondences() {
    let mut ext = Extractor::new(unit_camera()).unwrap();
    assert!(!ext.has_previous_frame());
    assert_eq!(ext.check_last(), None);
    assert!(ext.last().is_none());
    let knn = vec![vec![dm(0, 0, 0), dm(0, 1, 90)]];
    let out = ext.extract(frame(&[(5, 5), (6, 6)]), &knn, &FitOutcome::Inliers(vec![true]));
    assert!(out.is_empty());
    assert!(ext.has_previous_frame());
    assert_eq!(ext.check_last(), Some(()));
    assert_eq!(ext.last().unwrap().features.len(), 2);
}

#[test]
fn filter_before_first_frame_is_empty() {
    let ext = Extractor::new(unit_camera()).unwrap();
    let knn = vec![vec![dm(0, 0, 0), dm(0, 1, 90)]];
    assert!(ext.ratio_candidates(&frame(&[(1, 1)]), &knn).is_empty());
}

#[test]
fn static_scene_maps_points_to_themselves() {
    let pts = [(100, 200), (300, 400), (500, 600), (700, 800), (900, 1000)];
    let mut ext = Extractor::new(unit_camera()).unwrap();
    assert!(ext.extract(frame(&pts), &vec![], &FitOutcome::Degenerate).is_empty());
    let knn: Vec<Vec<DMatch>> = (0..pts.len() as i32)
        .map(|i| vec![dm(i, i, 0), dm(i, (i + 1) % pts.len() as i32, 40)])
        .collect();
    let candidates = ext.ratio_candidates(&frame(&pts), &knn);
    assert_eq!(candidates.len(), pts.len());
    let (rays_cur, rays_prev) = ext.normalize_pairs(&candidates);
    assert_eq!(rays_cur, rays_prev);
    let out = ext.extract(frame(&pts), &knn, &FitOutcome::Inliers(vec![true; pts.len()]));
    assert_eq!(out.len(), pts.len());
    for (u, v) in &out {
        assert_eq!(u, v);
    }
}

#[test]
fn frame_without_keypoints_yields_nothing_and_becomes_previous() {
    let mut ext = Extractor::new(unit_camera()).unwrap();
    ext.extract(frame(&[(1, 1), (2, 2)]), &vec![], &FitOutcome::Degenerate);
    let out = ext.extract(frame(&[]), &vec![], &FitOutcome::Degenerate);
    assert!(out.is_empty());
    assert!(ext.has_previous_frame());
    assert_eq!(ext.last().unwrap().features.len(), 0);
    // a later frame matches against the empty set: nothing to match
    let knn = vec![vec![dm(0, 0, 0), dm(0, 1, 50)]];
    let out = ext.extract(frame(&[(1, 1)]), &knn, &FitOutcome::Inliers(vec![true]));
    assert!(out.is_empty());
    assert_eq!(ext.last().unwrap().features.len(), 1);
}

#[test]
fn degenerate_fit_yields_nothing_but_tracking_continues() {
    // collinear matched points: the fit reports no model
    let pts = [(10, 10), (20, 20), (30, 30), (40, 40), (50, 50), (60, 60), (70, 70), (80, 80)];
    let mut ext = Extractor::new(unit_camera()).unwrap();
    ext.extract(frame(&pts), &vec![], &FitOutcome::Degenerate);
    let knn: Vec<Vec<DMatch>> =
        (0..pts.len() as i32).map(|i| vec![dm(i, i, 1), dm(i, (i + 1) % 8, 30)]).collect();
    assert_eq!(ext.ratio_candidates(&frame(&pts), &knn).len(), pts.len());
    let out = ext.extract(frame(&pts[..4]), &knn, &FitOutcome::Degenerate);
    assert!(out.is_empty());
    assert_eq!(ext.last().unwrap().features.len(), 4);
}

#[test]
fn correspondences_are_verified_ratio_survivors_in_pixels() {
    let mut ext = Extractor::with_ratio(unit_camera(), RatioThreshold { num: 1, den: 2 }).unwrap();
    ext.extract(frame(&[(10, 10), (20, 20), (30, 30)]), &vec![], &FitOutcome::Degenerate);
    let current = frame(&[(11, 12), (21, 22), (31, 32), (41, 42)]);
    let knn = vec![
        vec![dm(0, 0, 2), dm(0, 1, 10)],
        vec![dm(1, 1, 6), dm(1, 2, 10)],
        vec![dm(2, 2, 3), dm(2, 0, 10)],
        vec![dm(3, 0, 1), dm(3, 1, 10)],
    ];
    let candidates = ext.ratio_candidates(&current, &knn);
    assert_eq!(candidates.len(), 3);
    let out = ext.extract(current, &knn, &FitOutcome::Inliers(vec![true, false, true]));
    assert_eq!(
        out,
        vec![(Point::new(11, 12), Point::new(10, 10)), (Point::new(41, 42), Point::new(10, 10))]
    );
    assert_eq!(ext.last().unwrap().features[3].point, Point::new(41, 42));
}

#[test]
fn default_ratio_is_three_quarters() {
    let mut ext = Extractor::new(unit_camera()).unwrap();
    ext.extract(frame(&[(10, 10), (20, 20)]), &vec![], &FitOutcome::Degenerate);
    let current = frame(&[(1, 1), (2, 2)]);
    let knn = vec![vec![dm(0, 0, 74), dm(0, 1, 99)], vec![dm(1, 1, 75), dm(1, 0, 100)]];
    assert_eq!(ext.ratio_candidates(&current, &knn), vec![(Point::new(1, 1), Point::new(10, 10))]);
}

#[test]
fn filter_matches_on_degenerate_fit_is_empty() {
    // three collinear survivors: too few for a fundamental matrix
    let mut ext = Extractor::new(unit_camera()).unwrap();
    ext.extract(frame(&[(10, 10), (20, 20), (30, 30)]), &vec![], &FitOutcome::Degenerate);
    let current = frame(&[(11, 11), (21, 21), (31, 31)]);
    let knn: Vec<Vec<DMatch>> = (0..3).map(|i| vec![dm(i, i, 1), dm(i, (i + 1) % 3, 40)]).collect();
    assert_eq!(ext.ratio_candidates(&current, &knn).len(), 3);
    assert!(ext.filter_matches(&current, &knn, &FitOutcome::Degenerate).is_empty());
}

#[test]
fn filter_matches_keeps_flagged_survivors() {
    let mut ext = Extractor::new(unit_camera()).unwrap();
    let knn: Vec<Vec<DMatch>> = (0..3).map(|i| vec![dm(i, i, 1), dm(i, (i + 1) % 3, 40)]).collect();
    let current = frame(&[(11, 11), (21, 21), (31, 31)]);
    assert!(ext.filter_matches(&current, &knn, &FitOutcome::Inliers(vec![true; 3])).is_empty());
    ext.extract(frame(&[(10, 10), (20, 20), (30, 30)]), &vec![], &FitOutcome::Degenerate);
    let out = ext.filter_matches(&current, &knn, &FitOutcome::Inliers(vec![false, true, true]));
    assert_eq!(
        out,
        vec![(Point::new(21, 21), Point::new(20, 20)), (Point::new(31, 31), Point::new(30, 30))]
    );
}
