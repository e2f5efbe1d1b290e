//! Multi-material voxel terrain blending.
//!
//! Voxel terrain gives every voxel of a chunked grid an 8-bit material
//! index. When a mesher turns the chunk's density grid into a surface
//! mesh, every vertex of that mesh needs a compact, normalized blend of
//! the materials stored in the voxels around it. This crate holds the
//! data types and the blending engine for that step:
//!
//! - [`vertex_data::VertexMaterialData`]: four material ids and four
//!   blend weights, packed into two `u32` vertex attributes;
//! - [`field::MaterialField`]: the per-chunk grid of material ids;
//! - [`density::DensityField`]: the per-chunk grid of signed densities,
//!   held in fixed-point units (negative = interior);
//! - [`neighbor`]: cached boundary planes of adjacent chunks, so that
//!   blending reads consistent data across chunk seams;
//! - [`blending`]: the engine that turns the eight corner samples
//!   around a vertex into one normalized four-material blend;
//! - [`brushes`]: bulk painting operations over a material field;
//! - [`palette`]: bounds checking for material palettes.

use vstd::prelude::*;

pub mod blending;
pub mod brushes;
pub mod density;
pub mod field;
pub mod neighbor;
pub mod palette;
pub mod vertex_data;

verus! {

broadcast use crate::field::lemma_vox_index_bounds;

} // verus!
