// A software rasterizer with per-pixel depth testing, Bresenham lines and
// barycentric triangles, the capability set of a minimal graphics backend,
// and the topology of the 4-D hypercube.

pub mod color;
pub mod entity;
pub mod gfx_api;
pub mod raster;
pub mod tesseract;
pub mod triangle;
