pub mod geometry;
pub mod window;

pub use geometry::DelayCoordinates;
pub use geometry::ForwardDelayCoordinates;
pub use window::DelayMappedView;
pub use window::DelayMappedViewIter;
pub use window::ForwardMapping;
