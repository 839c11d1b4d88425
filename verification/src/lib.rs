//! A screen/window capture engine core: monitor and window geometry
//! resolution, z-order handling, virtual-desktop compositing and
//! sub-rectangle cropping, all over plain pixel buffers and descriptors.
//! The operating-system queries that produce descriptors and raw frames
//! live outside this crate; everything here is pure logic on the values
//! they hand over.

pub mod compose;
pub mod crop;
pub mod errors;
pub mod monitors;
pub mod normalize;
pub mod types;
pub mod windows;

pub use errors::CaptureError;
pub use types::ImageData;
pub use types::MonitorData;
pub use types::WindowData;
