mod geometry;
mod path;
mod pursuit;

pub use geometry::Point;
pub use geometry::COORD_LIMIT;
pub use path::{PathModel, PathPose, POSE_INTERPOLATE_DISTANCE};
pub use pursuit::{PursuitRun, follow_path, run_pursuit, GAIN_DIVISOR, ITERATION_CAP};
