//! The commonly used items of the crate in one import.

pub use crate::behaviour::{FrameAction, FrameEvent, ProcessNext, Scheduler};
pub use crate::geometry::{ivec2, uvec2, IVec2, UVec2};
pub use crate::optics::Optics;
pub use crate::printing::drawing::{DrawError, Shade};
pub use crate::printing::{CharBuffer, CharBufferError, RgbColor};
pub use crate::rasterizing::camera::Camera;
pub use crate::rasterizing::compositing::{DepthBuffer, ScreenTriangle, ScreenVertex};
pub use crate::rasterizing::{RasterizationError, Rasterizer};
pub use crate::resources::Triangle;
