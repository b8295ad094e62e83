//! A fixed-size voxel grid with bit-packed occupancy masks and a
//! deterministic per-tick liquid diffusion engine.
//!
//! The grid is a 64x64x64 chunk. For every (y, z) column a 64-bit word
//! records which cells along the x axis are occupied (`some_mask`) and which
//! of those hold liquid (`liquid_mask`). The masks are double buffered: the
//! front buffer is the stable state visible between ticks, the back buffer is
//! the write target of the running tick. Each tick moves liquid cells
//! downward and sideways according to a fixed move catalog, and resolves
//! write collisions with a deterministic priority hash seeded by the tick
//! counter.

pub mod bits;
pub mod chunk;
pub mod double_buffered;
pub mod index;
