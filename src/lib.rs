//! Frame-to-frame correspondence front end for monocular visual odometry:
//! a camera model, the ratio test over two-nearest-neighbour candidates,
//! the selection of geometric inliers, and the per-frame state machine
//! that ties them together.

pub mod camera;
pub mod extractor;
pub mod inliers;
pub mod matching;
pub mod point;

pub use camera::{Camera, ConstructionError, Intrinsics, Ray};
pub use extractor::Extractor;
pub use inliers::{keep_inliers, FitOutcome};
pub use matching::{ratio_candidates, DMatch, DescriptorSet, Feature, RatioThreshold};
pub use point::Point;
