//! A frame-sequence pixel-displacement effect over packed row-major rasters.
//!
//! A movie is an ordered sequence of equally sized frames. Each output frame
//! is reassembled from pixels of *different* input frames, the source frame
//! chosen as a function of pixel position and a fixed step size, which smears
//! the sequence in time row-, column- or diagonal-wise.

pub mod codec;
pub mod displace;
pub mod raster;
pub mod store;
