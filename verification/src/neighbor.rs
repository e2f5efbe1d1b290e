//! Cached neighbor boundary data for seamless chunk boundaries.
//!
//! A chunk that blends materials near its boundary needs density and
//! material values from adjacent chunks. Those values are copied ahead
//! of time into [`NeighborSlice`]s — shallow boundary planes, one per
//! face — so that blending never reads another chunk's live grid.

use vstd::prelude::*;

use crate::density::DensityField;
use crate::field::MaterialField;

verus! {

/// How many planes of neighbor data a slice stores.
pub const NEIGHBOR_DEPTH: u32 = 2;

/// Identifies a face of a chunk for neighbor lookups.
#[derive(Clone, Copy, Debug, PartialEq, Eq, Structural)]
pub enum NeighborFace {
    NegX,
    PosX,
    NegY,
    PosY,
    NegZ,
    PosZ,
}

/// The unit offset from a chunk to its neighbor across a face.
pub open spec fn face_offset_spec(face: NeighborFace) -> (int, int, int) {
    match face {
        NeighborFace::NegX => (-1, 0, 0),
        NeighborFace::PosX => (1, 0, 0),
        NeighborFace::NegY => (0, -1, 0),
        NeighborFace::PosY => (0, 1, 0),
        NeighborFace::NegZ => (0, 0, -1),
        NeighborFace::PosZ => (0, 0, 1),
    }
}

/// The face opposite to a face: the one its neighbor sees back.
pub open spec fn face_opposite_spec(face: NeighborFace) -> NeighborFace {
    match face {
        NeighborFace::NegX => NeighborFace::PosX,
        NeighborFace::PosX => NeighborFace::NegX,
        NeighborFace::NegY => NeighborFace::PosY,
        NeighborFace::PosY => NeighborFace::NegY,
        NeighborFace::NegZ => NeighborFace::PosZ,
        NeighborFace::PosZ => NeighborFace::NegZ,
    }
}

/// The voxel of the neighbor chunk that plane cell `(a, b)` at depth
/// `d` of a slice for `face` reads. A request for "my +X neighbor"
/// reads the neighbor's near-X boundary (its `x = 0` plane at depth 0),
/// and so on: depth counts planes moving away from the requesting
/// chunk.
pub open spec fn face_source_coords(face: NeighborFace, a: int, b: int, d: int) -> (
    int,
    int,
    int,
) {
    match face {
        NeighborFace::NegX => (31 - d, a, b),
        NeighborFace::PosX => (d, a, b),
        NeighborFace::NegY => (a, 31 - d, b),
        NeighborFace::PosY => (a, d, b),
        NeighborFace::NegZ => (a, b, 31 - d),
        NeighborFace::PosZ => (a, b, d),
    }
}

impl NeighborFace {
    /// The unit offset from a chunk to its neighbor across this face.
    pub fn offset(&self) -> (r: (i32, i32, i32))
        ensures
            (r.0 as int, r.1 as int, r.2 as int) == face_offset_spec(*self),
    {
        match self {
            NeighborFace::NegX => (-1, 0, 0),
            NeighborFace::PosX => (1, 0, 0),
            NeighborFace::NegY => (0, -1, 0),
            NeighborFace::PosY => (0, 1, 0),
            NeighborFace::NegZ => (0, 0, -1),
            NeighborFace::PosZ => (0, 0, 1),
        }
    }

    /// All six faces, in index order.
    pub fn all() -> (r: [NeighborFace; 6])
        ensures
            r@ == seq![
                NeighborFace::NegX,
                NeighborFace::PosX,
                NeighborFace::NegY,
                NeighborFace::PosY,
                NeighborFace::NegZ,
                NeighborFace::PosZ,
            ],
    {
        let r = [
            NeighborFace::NegX,
            NeighborFace::PosX,
            NeighborFace::NegY,
            NeighborFace::PosY,
            NeighborFace::NegZ,
            NeighborFace::PosZ,
        ];
        proof {
            assert(r@ =~= seq![
                NeighborFace::NegX,
                NeighborFace::PosX,
                NeighborFace::NegY,
                NeighborFace::PosY,
                NeighborFace::NegZ,
                NeighborFace::PosZ,
            ]);
        }
        r
    }

    /// The face opposite to this one: a chunk's +X neighbor sees that
    /// chunk across its own -X face.
    pub fn opposite(&self) -> (r: NeighborFace)
        ensures
            r == face_opposite_spec(*self),
    {
        match self {
            NeighborFace::NegX => NeighborFace::PosX,
            NeighborFace::PosX => NeighborFace::NegX,
            NeighborFace::NegY => NeighborFace::PosY,
            NeighborFace::PosY => NeighborFace::NegY,
            NeighborFace::NegZ => NeighborFace::PosZ,
            NeighborFace::PosZ => NeighborFace::NegZ,
        }
    }

    /// The voxel of the source chunk that plane cell `(a, b)` at depth
    /// `d` of a slice for this face reads, with out-of-range depths
    /// clamped to the boundary.
    pub fn to_field_coords(&self, a: u32, b: u32, depth: u32) -> (r: (u32, u32, u32))
        requires
            a < 32,
            b < 32,
        ensures
            depth < 32 ==> (r.0 as int, r.1 as int, r.2 as int) == face_source_coords(
                *self,
                a as int,
                b as int,
                depth as int,
            ),
            r.0 < 32 && r.1 < 32 && r.2 < 32,
    {
        let d = if depth > 31 {
            31
        } else {
            depth
        };
        match self {
            NeighborFace::NegX => (31 - d, a, b),
            NeighborFace::PosX => (d, a, b),
            NeighborFace::NegY => (a, 31 - d, b),
            NeighborFace::PosY => (a, d, b),
            NeighborFace::NegZ => (a, b, 31 - d),
            NeighborFace::PosZ => (a, b, d),
        }
    }
}

/// Flat index of plane cell `(a, b)` at depth `d` in a slice's
/// `[depth][b][a]` layout.
pub open spec fn slice_index(a: int, b: int, d: int) -> int {
    a + 32 * b + 1024 * d
}

/// The plane cell and depth a flat slice index belongs to.
pub open spec fn slice_cell(j: int) -> (int, int, int) {
    (j % 32, (j / 32) % 32, j / 1024)
}

/// Decomposing the flat index of an in-range plane cell gives the cell
/// back.
pub proof fn lemma_slice_index_cell(a: int, b: int, d: int)
    requires
        0 <= a < 32,
        0 <= b < 32,
        0 <= d,
    ensures
        slice_cell(slice_index(a, b, d)) == (a, b, d),
{
    let j = slice_index(a, b, d);
    vstd::arithmetic::div_mod::lemma_fundamental_div_mod_converse(j, 32, b + 32 * d, a);
    vstd::arithmetic::div_mod::lemma_fundamental_div_mod_converse(b + 32 * d, 32, d, b);
    vstd::arithmetic::div_mod::lemma_fundamental_div_mod_converse(j, 1024, d, a + 32 * b);
}

/// Stores boundary planes copied from a neighboring chunk's grid.
///
/// The planes are flattened `[depth][b][a]`, where `a` and `b` are the
/// two in-plane axes (sized to the grid's perpendicular extents) and
/// the depth counts planes moving away from the requesting chunk.
/// Immutable once built; rebuilt whenever the source chunk's grid
/// changes and is needed again.
#[derive(Clone, Debug)]
pub struct NeighborSlice<T> {
    data: Vec<T>,
    size_a: u32,
    size_b: u32,
    depth: u32,
}

impl<T> NeighborSlice<T> {
    /// True when the plane sizes match the grid and the storage holds
    /// exactly the stated number of planes.
    pub closed spec fn wf(self) -> bool {
        self.size_a == 32 && self.size_b == 32 && self.data@.len() == 1024 * self.depth
    }

    /// The number of planes this slice caches.
    pub closed spec fn depth_spec(self) -> u32 {
        self.depth
    }

    /// The cached value at plane cell `(a, b)` and depth `d`.
    pub closed spec fn at(self, a: int, b: int, d: int) -> T {
        self.data@[slice_index(a, b, d)]
    }

    /// What `get` returns: the cached value while the coordinates lie
    /// within the stored extents, and `None` beyond them. Depth
    /// exhaustion in particular reads as "unknown", never as a default.
    pub open spec fn get_spec(self, a: int, b: int, d: int) -> Option<T> {
        if 0 <= a < 32 && 0 <= b < 32 && 0 <= d < self.depth_spec() {
            Some(self.at(a, b, d))
        } else {
            None
        }
    }

    /// The number of planes this slice caches.
    pub fn depth(&self) -> (r: u32)
        ensures
            r == self.depth_spec(),
    {
        self.depth
    }
}

impl<T: Copy> NeighborSlice<T> {
    /// Gets the cached value at `(a, b)` with a depth offset.
    ///
    /// Returns `None` when any coordinate exceeds the stored extents or
    /// the requested depth exceeds the cached depth.
    pub fn get(&self, a: u32, b: u32, d: u32) -> (r: Option<T>)
        requires
            self.wf(),
        ensures
            r == self.get_spec(a as int, b as int, d as int),
    {
        if a < self.size_a && b < self.size_b && d < self.depth {
            proof {
                lemma_slice_index_cell(a as int, b as int, d as int);
            }
            let n = self.data.len();
            let i = a as usize + b as usize * 32 + d as usize * 1024;
            Some(self.data[i])
        } else {
            None
        }
    }
}

impl<T: Copy> NeighborSlice<T> {
    /// Builds a slice by calling `sampler(a, b, depth)` for every cell
    /// of the boundary plane, over the standard two planes of depth.
    /// The sampler works in slice coordinates; a face's
    /// [`NeighborFace::to_field_coords`] maps them onto the source
    /// chunk's voxels.
    #[verifier::loop_isolation(false)]
    pub fn from_sampler<F: Fn(u32, u32, u32) -> T>(sampler: F) -> (r: Self)
        requires
            forall|a: u32, b: u32, d: u32| sampler.requires((a, b, d)),
        ensures
            r.wf(),
            r.depth_spec() == 2,
            forall|a: u32, b: u32, d: u32|
                a < 32 && b < 32 && d < 2 ==> sampler.ensures(
                    (a, b, d),
                    #[trigger] r.at(a as int, b as int, d as int),
                ),
    {
        let mut data: Vec<T> = Vec::new();
        let mut j: usize = 0;
        while j < 2048
            invariant
                data@.len() == j,
                j <= 2048,
                forall|a: u32, b: u32, d: u32| sampler.requires((a, b, d)),
                forall|jj: int|
                    0 <= jj < j ==> {
                        let (a, b, d) = slice_cell(jj);
                        sampler.ensures(
                            (a as u32, b as u32, d as u32),
                            #[trigger] data@[jj],
                        )
                    },
            decreases 2048 - j,
        {
            let a = (j % 32) as u32;
            let b = ((j / 32) % 32) as u32;
            let d = (j / 1024) as u32;
            let v = sampler(a, b, d);
            data.push(v);
            j = j + 1;
        }
        let r = Self { data, size_a: 32, size_b: 32, depth: NEIGHBOR_DEPTH };
        proof {
            assert forall|a: u32, b: u32, d: u32| a < 32 && b < 32 && d < 2 implies sampler.ensures(
                (a, b, d),
                #[trigger] r.at(a as int, b as int, d as int),
            ) by {
                lemma_slice_index_cell(a as int, b as int, d as int);
            }
        }
        r
    }
}

impl NeighborSlice<u8> {
    /// Creates a material slice from a neighbor chunk's boundary
    /// planes, reading the boundary of `field` facing the requesting
    /// chunk across `face`.
    pub fn from_material_field(field: &MaterialField, face: NeighborFace) -> (r: Self)
        requires
            field.wf(),
        ensures
            r.wf(),
            r.depth_spec() == 2,
            forall|a: int, b: int, d: int|
                0 <= a < 32 && 0 <= b < 32 && 0 <= d < 2 ==> #[trigger] r.at(a, b, d) == {
                    let (x, y, z) = face_source_coords(face, a, b, d);
                    field.at(x, y, z)
                },
    {
        let mut data: Vec<u8> = Vec::new();
        let mut j: usize = 0;
        #[verifier::loop_isolation(false)]
        while j < 2048
            invariant
                data@.len() == j,
                j <= 2048,
                forall|jj: int|
                    0 <= jj < j ==> #[trigger] data@[jj] == {
                        let (a, b, d) = slice_cell(jj);
                        let (x, y, z) = face_source_coords(face, a, b, d);
                        field.at(x, y, z)
                    },
            decreases 2048 - j,
        {
            let a = (j % 32) as u32;
            let b = ((j / 32) % 32) as u32;
            let d = (j / 1024) as u32;
            let v = match face {
                NeighborFace::NegX => field.get(31 - d, a, b),
                NeighborFace::PosX => field.get(d, a, b),
                NeighborFace::NegY => field.get(a, 31 - d, b),
                NeighborFace::PosY => field.get(a, d, b),
                NeighborFace::NegZ => field.get(a, b, 31 - d),
                NeighborFace::PosZ => field.get(a, b, d),
            };
            data.push(v);
            j = j + 1;
        }
        let r = Self { data, size_a: 32, size_b: 32, depth: NEIGHBOR_DEPTH };
        proof {
            assert forall|a: int, b: int, d: int|
                0 <= a < 32 && 0 <= b < 32 && 0 <= d < 2 implies #[trigger] r.at(a, b, d) == {
                let (x, y, z) = face_source_coords(face, a, b, d);
                field.at(x, y, z)
            } by {
                lemma_slice_index_cell(a, b, d);
            }
        }
        r
    }
}

impl NeighborSlice<i32> {
    /// Creates a density slice from a neighbor chunk's boundary planes,
    /// reading the boundary of `field` facing the requesting chunk
    /// across `face`.
    pub fn from_density_field(field: &DensityField, face: NeighborFace) -> (r: Self)
        requires
            field.wf(),
        ensures
            r.wf(),
            r.depth_spec() == 2,
            forall|a: int, b: int, d: int|
                0 <= a < 32 && 0 <= b < 32 && 0 <= d < 2 ==> #[trigger] r.at(a, b, d) == {
                    let (x, y, z) = face_source_coords(face, a, b, d);
                    field.at(x, y, z)
                },
            forall|a: int, b: int, d: int|
                0 <= a < 32 && 0 <= b < 32 && 0 <= d < 2 ==> -1048576 <= #[trigger] r.at(a, b, d)
                    <= 1048576,
            slice_in_range(Some(r)),
    {
        let mut data: Vec<i32> = Vec::new();
        let mut j: usize = 0;
        #[verifier::loop_isolation(false)]
        while j < 2048
            invariant
                data@.len() == j,
                j <= 2048,
                forall|jj: int|
                    0 <= jj < j ==> #[trigger] data@[jj] == {
                        let (a, b, d) = slice_cell(jj);
                        let (x, y, z) = face_source_coords(face, a, b, d);
                        field.at(x, y, z)
                    },
            decreases 2048 - j,
        {
            let a = (j % 32) as u32;
            let b = ((j / 32) % 32) as u32;
            let d = (j / 1024) as u32;
            let v = match face {
                NeighborFace::NegX => field.get(31 - d, a, b),
                NeighborFace::PosX => field.get(d, a, b),
                NeighborFace::NegY => field.get(a, 31 - d, b),
                NeighborFace::PosY => field.get(a, d, b),
                NeighborFace::NegZ => field.get(a, b, 31 - d),
                NeighborFace::PosZ => field.get(a, b, d),
            };
            data.push(v);
            j = j + 1;
        }
        let r = Self { data, size_a: 32, size_b: 32, depth: NEIGHBOR_DEPTH };
        proof {
            assert forall|a: int, b: int, d: int|
                0 <= a < 32 && 0 <= b < 32 && 0 <= d < 2 implies #[trigger] r.at(a, b, d) == {
                let (x, y, z) = face_source_coords(face, a, b, d);
                field.at(x, y, z)
            } by {
                lemma_slice_index_cell(a, b, d);
            }
        }
        r
    }
}

/// True when `v` lies within the grid's extent along one axis.
pub open spec fn in_axis(v: int) -> bool {
    0 <= v < 32
}

/// The face whose neighbor chunk holds a position that leaves the grid
/// along exactly one axis, or `None` for in-bounds positions and for
/// positions out of range on two or three axes (diagonal neighbors are
/// not cached; sampling them always reads `None`).
pub open spec fn overflow_face(x: int, y: int, z: int) -> Option<NeighborFace> {
    if x < 0 && in_axis(y) && in_axis(z) {
        Some(NeighborFace::NegX)
    } else if x >= 32 && in_axis(y) && in_axis(z) {
        Some(NeighborFace::PosX)
    } else if y < 0 && in_axis(x) && in_axis(z) {
        Some(NeighborFace::NegY)
    } else if y >= 32 && in_axis(x) && in_axis(z) {
        Some(NeighborFace::PosY)
    } else if z < 0 && in_axis(x) && in_axis(y) {
        Some(NeighborFace::NegZ)
    } else if z >= 32 && in_axis(x) && in_axis(y) {
        Some(NeighborFace::PosZ)
    } else {
        None
    }
}

/// Cached neighbor data for all six faces of a chunk.
///
/// A `None` entry means no neighbor chunk is currently loaded or
/// tracked on that face; sampling through it reads `None`, never a
/// default value.
#[derive(Clone, Debug)]
pub struct NeighborFields<T> {
    pub neg_x: Option<NeighborSlice<T>>,
    pub pos_x: Option<NeighborSlice<T>>,
    pub neg_y: Option<NeighborSlice<T>>,
    pub pos_y: Option<NeighborSlice<T>>,
    pub neg_z: Option<NeighborSlice<T>>,
    pub pos_z: Option<NeighborSlice<T>>,
}

/// Looks up a slice that may be absent.
pub open spec fn opt_get<T>(s: Option<NeighborSlice<T>>, a: int, b: int, d: int) -> Option<T> {
    match s {
        Some(slice) => slice.get_spec(a, b, d),
        None => None,
    }
}

impl<T> NeighborFields<T> {
    /// True when every present slice is well formed.
    pub open spec fn wf(self) -> bool {
        &&& (self.neg_x matches Some(s) ==> s.wf())
        &&& (self.pos_x matches Some(s) ==> s.wf())
        &&& (self.neg_y matches Some(s) ==> s.wf())
        &&& (self.pos_y matches Some(s) ==> s.wf())
        &&& (self.neg_z matches Some(s) ==> s.wf())
        &&& (self.pos_z matches Some(s) ==> s.wf())
    }

    /// The slice cached for a face.
    pub open spec fn face_slice(self, face: NeighborFace) -> Option<NeighborSlice<T>> {
        match face {
            NeighborFace::NegX => self.neg_x,
            NeighborFace::PosX => self.pos_x,
            NeighborFace::NegY => self.neg_y,
            NeighborFace::PosY => self.pos_y,
            NeighborFace::NegZ => self.neg_z,
            NeighborFace::PosZ => self.pos_z,
        }
    }

    /// What `sample` returns: positions out of bounds along exactly one
    /// axis dispatch to that face's slice, translated into the slice's
    /// plane coordinates and depth; everything else — in-bounds
    /// positions, diagonal overflow, an absent slice, exhausted depth —
    /// reads `None`.
    pub open spec fn sample_spec(self, x: int, y: int, z: int) -> Option<T> {
        if x < 0 && in_axis(y) && in_axis(z) {
            opt_get(self.neg_x, y, z, -1 - x)
        } else if x >= 32 && in_axis(y) && in_axis(z) {
            opt_get(self.pos_x, y, z, x - 32)
        } else if y < 0 && in_axis(x) && in_axis(z) {
            opt_get(self.neg_y, x, z, -1 - y)
        } else if y >= 32 && in_axis(x) && in_axis(z) {
            opt_get(self.pos_y, x, z, y - 32)
        } else if z < 0 && in_axis(x) && in_axis(y) {
            opt_get(self.neg_z, x, y, -1 - z)
        } else if z >= 32 && in_axis(x) && in_axis(y) {
            opt_get(self.pos_z, x, y, z - 32)
        } else {
            None
        }
    }

    /// Creates an empty cache: no neighbor data on any face.
    pub fn new() -> (r: Self)
        ensures
            r.neg_x is None,
            r.pos_x is None,
            r.neg_y is None,
            r.pos_y is None,
            r.neg_z is None,
            r.pos_z is None,
            r.wf(),
    {
        Self { neg_x: None, pos_x: None, neg_y: None, pos_y: None, neg_z: None, pos_z: None }
    }

    /// Stores the slice for a face, replacing any previous one.
    pub fn set_face(&mut self, face: NeighborFace, slice: NeighborSlice<T>)
        ensures
            final(self).face_slice(face) == Some(slice),
            final(self).neg_x == if face == NeighborFace::NegX {
                Some(slice)
            } else {
                old(self).neg_x
            },
            final(self).pos_x == if face == NeighborFace::PosX {
                Some(slice)
            } else {
                old(self).pos_x
            },
            final(self).neg_y == if face == NeighborFace::NegY {
                Some(slice)
            } else {
                old(self).neg_y
            },
            final(self).pos_y == if face == NeighborFace::PosY {
                Some(slice)
            } else {
                old(self).pos_y
            },
            final(self).neg_z == if face == NeighborFace::NegZ {
                Some(slice)
            } else {
                old(self).neg_z
            },
            final(self).pos_z == if face == NeighborFace::PosZ {
                Some(slice)
            } else {
                old(self).pos_z
            },
            old(self).wf() && slice.wf() ==> final(self).wf(),
    {
        match face {
            NeighborFace::NegX => self.neg_x = Some(slice),
            NeighborFace::PosX => self.pos_x = Some(slice),
            NeighborFace::NegY => self.neg_y = Some(slice),
            NeighborFace::PosY => self.pos_y = Some(slice),
            NeighborFace::NegZ => self.neg_z = Some(slice),
            NeighborFace::PosZ => self.pos_z = Some(slice),
        }
    }
}

impl<T: Copy> NeighborFields<T> {
    /// Samples the cache at a position outside the chunk's own grid.
    ///
    /// Positions out of bounds along exactly one axis are dispatched to
    /// that face's slice; everything the cache cannot resolve reads
    /// `None`.
    pub fn sample(&self, x: i32, y: i32, z: i32) -> (r: Option<T>)
        requires
            self.wf(),
        ensures
            r == self.sample_spec(x as int, y as int, z as int),
    {
        let y_in = y >= 0 && y < 32;
        let z_in = z >= 0 && z < 32;
        let x_in = x >= 0 && x < 32;
        if x < 0 && y_in && z_in {
            match &self.neg_x {
                Some(s) => s.get(y as u32, z as u32, (-1 - x) as u32),
                None => None,
            }
        } else if x >= 32 && y_in && z_in {
            match &self.pos_x {
                Some(s) => s.get(y as u32, z as u32, (x - 32) as u32),
                None => None,
            }
        } else if y < 0 && x_in && z_in {
            match &self.neg_y {
                Some(s) => s.get(x as u32, z as u32, (-1 - y) as u32),
                None => None,
            }
        } else if y >= 32 && x_in && z_in {
            match &self.pos_y {
                Some(s) => s.get(x as u32, z as u32, (y - 32) as u32),
                None => None,
            }
        } else if z < 0 && x_in && y_in {
            match &self.neg_z {
                Some(s) => s.get(x as u32, y as u32, (-1 - z) as u32),
                None => None,
            }
        } else if z >= 32 && x_in && y_in {
            match &self.pos_z {
                Some(s) => s.get(x as u32, y as u32, (z - 32) as u32),
                None => None,
            }
        } else {
            None
        }
    }
}

/// Law: sampling a position that overflows the grid on one axis, when
/// no slice is cached for that axis's face, yields `None` — never a
/// silently substituted default value.
pub proof fn lemma_sample_missing_slice_is_none<T: Copy>(
    nf: NeighborFields<T>,
    x: int,
    y: int,
    z: int,
    face: NeighborFace,
)
    requires
        overflow_face(x, y, z) == Some(face),
        nf.face_slice(face) is None,
    ensures
        nf.sample_spec(x, y, z) is None,
{
}

/// True when an optional cached density slice holds only values within
/// the density field's stored range.
pub open spec fn slice_in_range(s: Option<NeighborSlice<i32>>) -> bool {
    match s {
        Some(sl) => forall|a: int, b: int, d: int|
            0 <= a < 32 && 0 <= b < 32 && 0 <= d < sl.depth_spec() ==> -1048576
                <= #[trigger] sl.at(a, b, d) <= 1048576,
        None => true,
    }
}

/// True when every cached density slice holds only values within the
/// density field's stored range, as slices copied from a well-formed
/// density field always do.
pub open spec fn den_in_range(n: NeighborFields<i32>) -> bool {
    &&& slice_in_range(n.neg_x)
    &&& slice_in_range(n.pos_x)
    &&& slice_in_range(n.neg_y)
    &&& slice_in_range(n.pos_y)
    &&& slice_in_range(n.neg_z)
    &&& slice_in_range(n.pos_z)
}

/// A slice of cached neighbor material ids.
pub type MaterialSlice = NeighborSlice<u8>;

/// A slice of cached neighbor densities.
pub type DensitySlice = NeighborSlice<i32>;

/// Cached neighbor material data for seamless meshing.
pub type NeighborMaterialFields = NeighborFields<u8>;

/// Cached neighbor density data for seamless meshing.
pub type NeighborDensityFields = NeighborFields<i32>;

} // verus!
