//! Per-voxel material storage for one chunk.

use vstd::prelude::*;

verus! {

/// Side length of the cubic voxel grid of one chunk.
pub const FIELD_SIZE: u32 = 32;

/// Total number of voxels in one chunk's grid.
pub const FIELD_VOLUME: usize = 32768;

/// Default material id for uninitialized voxels.
pub const DEFAULT_MATERIAL: u8 = 0;

/// Flat index of voxel `(x, y, z)` in the linear layout:
/// `x` varies fastest, then `y`, then `z`.
pub open spec fn vox_index(x: int, y: int, z: int) -> int {
    x + 32 * y + 1024 * z
}

/// True when `(x, y, z)` lies inside the chunk's grid.
pub open spec fn vox_in_bounds(x: int, y: int, z: int) -> bool {
    0 <= x < 32 && 0 <= y < 32 && 0 <= z < 32
}

/// Two in-bounds voxel coordinates with the same flat index are the
/// same voxel.
pub proof fn lemma_vox_index_injective(
    x1: int,
    y1: int,
    z1: int,
    x2: int,
    y2: int,
    z2: int,
)
    requires
        vox_in_bounds(x1, y1, z1),
        vox_in_bounds(x2, y2, z2),
        vox_index(x1, y1, z1) == vox_index(x2, y2, z2),
    ensures
        x1 == x2 && y1 == y2 && z1 == z2,
{
}

/// The flat index of an in-bounds voxel lies inside the grid's volume.
pub broadcast proof fn lemma_vox_index_bounds(x: int, y: int, z: int)
    requires
        vox_in_bounds(x, y, z),
    ensures
        0 <= #[trigger] vox_index(x, y, z) < 32768,
{
}

/// The `y` coordinate of a voxel can be read back from its flat index.
pub proof fn lemma_vox_index_y(x: int, y: int, z: int)
    requires
        vox_in_bounds(x, y, z),
    ensures
        row_of(vox_index(x, y, z)) == y,
{
    let i = vox_index(x, y, z);
    vstd::arithmetic::div_mod::lemma_fundamental_div_mod_converse(i, 32, y + 32 * z, x);
    vstd::arithmetic::div_mod::lemma_fundamental_div_mod_converse(y + 32 * z, 32, z, y);
}

/// All three coordinates of a voxel can be read back from its flat
/// index.
pub proof fn lemma_vox_index_cell(x: int, y: int, z: int)
    requires
        vox_in_bounds(x, y, z),
    ensures
        vox_index(x, y, z) % 32 == x,
        (vox_index(x, y, z) / 32) % 32 == y,
        vox_index(x, y, z) / 1024 == z,
{
    let i = vox_index(x, y, z);
    vstd::arithmetic::div_mod::lemma_fundamental_div_mod_converse(i, 32, y + 32 * z, x);
    vstd::arithmetic::div_mod::lemma_fundamental_div_mod_converse(y + 32 * z, 32, z, y);
    vstd::arithmetic::div_mod::lemma_fundamental_div_mod_converse(i, 1024, z, x + 32 * y);
}

/// The grid row (the `y` coordinate) that a flat index belongs to.
pub open spec fn row_of(j: int) -> int {
    (j / 32) % 32
}

/// A value clamped to the grid's coordinate range `[0, 31]`.
pub open spec fn clamp_axis(v: int) -> int {
    if v < 0 {
        0
    } else if v > 31 {
        31
    } else {
        v
    }
}

/// The material a height-layer table with a last-layer fallback
/// assigns to row `y`: the id of the first layer whose boundary
/// exceeds `y`; above every boundary, the last layer; 0 only when the
/// table is empty.
pub open spec fn layer_material_or_last(layers: Seq<(u32, u8)>, y: int) -> u8
    decreases layers.len(),
{
    if layers.len() == 0 {
        0
    } else if y < layers[0].0 {
        layers[0].1
    } else if layers.len() == 1 {
        layers[0].1
    } else {
        layer_material_or_last(layers.drop_first(), y)
    }
}

/// Dropping a prefix of layers whose boundaries are all at or below
/// `y` does not change the assigned material, while layers remain.
proof fn lemma_layer_or_last_skip(layers: Seq<(u32, u8)>, y: int, i: int)
    requires
        0 <= i < layers.len(),
        forall|j: int| 0 <= j < i ==> !(y < #[trigger] layers[j].0),
    ensures
        layer_material_or_last(layers, y) == layer_material_or_last(layers.skip(i), y),
    decreases i,
{
    if i > 0 {
        assert(layers.skip(1).skip(i - 1) =~= layers.skip(i));
        lemma_layer_or_last_skip(layers.skip(1), y, i - 1);
        assert(layers.drop_first() =~= layers.skip(1));
    } else {
        assert(layers.skip(0) =~= layers);
    }
}

/// The height-layer lookup with a last-layer fallback.
#[verifier::loop_isolation(false)]
pub fn layer_lookup_or_last(layers: &[(u32, u8)], y: u32) -> (r: u8)
    ensures
        r == layer_material_or_last(layers@, y as int),
{
    let n = layers.len();
    if n == 0 {
        return 0;
    }
    let mut i: usize = 0;
    while i < n
        invariant
            i <= n,
            n == layers@.len(),
            n > 0,
            forall|j: int| 0 <= j < i ==> !(y < #[trigger] layers@[j].0),
        decreases n - i,
    {
        let pair = layers[i];
        if y < pair.0 {
            proof {
                lemma_layer_or_last_skip(layers@, y as int, i as int);
                assert(layers@.skip(i as int)[0] == layers@[i as int]);
            }
            return pair.1;
        }
        i = i + 1;
    }
    proof {
        lemma_layer_or_last_skip(layers@, y as int, n as int - 1);
        assert(layers@.skip(n as int - 1)[0] == layers@[n as int - 1]);
        assert(layers@.skip(n as int - 1).len() == 1);
    }
    layers[n - 1].1
}

/// True when voxel `(vx, vy, vz)` lies within `rad` of the center
/// `(cx, cy, cz)`, by squared euclidean distance.
pub open spec fn in_sphere(
    vx: int,
    vy: int,
    vz: int,
    cx: int,
    cy: int,
    cz: int,
    rad: int,
) -> bool {
    (vx - cx) * (vx - cx) + (vy - cy) * (vy - cy) + (vz - cz) * (vz - cz) <= rad * rad
}

/// A point within a sphere of radius `rad` is within `rad` along each
/// axis.
pub proof fn lemma_sphere_axis(dx: int, dy: int, dz: int, rad: int)
    requires
        rad >= 0,
        dx * dx + dy * dy + dz * dz <= rad * rad,
    ensures
        -rad <= dx <= rad,
        -rad <= dy <= rad,
        -rad <= dz <= rad,
{
    assert(-rad <= dx <= rad && -rad <= dy <= rad && -rad <= dz <= rad) by (nonlinear_arith)
        requires
            rad >= 0,
            dx * dx + dy * dy + dz * dz <= rad * rad,
    ;
}

/// A 3D grid of material ids for voxel terrain.
///
/// Each voxel stores a `u8` material index that references a layer in
/// the texture palette. Materials are blended at mesh vertices based on
/// the surrounding voxels' density values.
///
/// Uses the same X-Y-Z ordering as the density grid (X varies fastest),
/// so that voxel `(x, y, z)` addresses the same location in both.
#[derive(Clone, Debug)]
pub struct MaterialField {
    data: Vec<u8>,
}

impl View for MaterialField {
    type V = Seq<u8>;

    closed spec fn view(&self) -> Seq<u8> {
        self.data@
    }
}

impl MaterialField {
    /// True when the grid owns exactly one byte per voxel.
    pub open spec fn wf(self) -> bool {
        self@.len() == 32768
    }

    /// The material stored at in-bounds voxel `(x, y, z)`.
    pub open spec fn at(self, x: int, y: int, z: int) -> u8 {
        self@[vox_index(x, y, z)]
    }

    /// The material `get` returns: the stored value in bounds, the
    /// default 0 out of bounds.
    pub open spec fn get_spec(self, x: int, y: int, z: int) -> u8 {
        if vox_in_bounds(x, y, z) {
            self.at(x, y, z)
        } else {
            0
        }
    }

    /// Creates a material field with all voxels set to the given id.
    #[verifier::loop_isolation(false)]
    pub fn filled(material_id: u8) -> (r: Self)
        ensures
            r.wf(),
            forall|i: int| 0 <= i < 32768 ==> r@[i] == material_id,
    {
        let mut data: Vec<u8> = Vec::new();
        let mut i: usize = 0;
        while i < FIELD_VOLUME
            invariant
                data@.len() == i,
                i <= 32768,
                forall|j: int| 0 <= j < i ==> data@[j] == material_id,
            decreases 32768 - i,
        {
            data.push(material_id);
            i = i + 1;
        }
        Self { data }
    }

    /// Creates a new material field with all voxels set to material 0.
    pub fn new() -> (r: Self)
        ensures
            r.wf(),
            forall|i: int| 0 <= i < 32768 ==> r@[i] == 0,
    {
        Self::filled(DEFAULT_MATERIAL)
    }

    /// Fills a field by evaluating `f(x, y, z)` over every voxel.
    #[verifier::loop_isolation(false)]
    pub fn from_fn<F: Fn(u32, u32, u32) -> u8>(f: F) -> (r: Self)
        requires
            forall|x: u32, y: u32, z: u32| f.requires((x, y, z)),
        ensures
            r.wf(),
            forall|x: u32, y: u32, z: u32|
                vox_in_bounds(x as int, y as int, z as int) ==> f.ensures(
                    (x, y, z),
                    #[trigger] r.at(x as int, y as int, z as int),
                ),
    {
        let mut data: Vec<u8> = Vec::new();
        let mut i: usize = 0;
        while i < FIELD_VOLUME
            invariant
                data@.len() == i,
                i <= 32768,
                forall|x: u32, y: u32, z: u32| f.requires((x, y, z)),
                forall|x: u32, y: u32, z: u32|
                    vox_in_bounds(x as int, y as int, z as int) && vox_index(
                        x as int,
                        y as int,
                        z as int,
                    ) < i ==> f.ensures(
                        (x, y, z),
                        #[trigger] data@[vox_index(x as int, y as int, z as int)],
                    ),
            decreases 32768 - i,
        {
            let x = (i % 32) as u32;
            let y = ((i / 32) % 32) as u32;
            let z = (i / 1024) as u32;
            proof {
                lemma_vox_index_cell(x as int, y as int, z as int);
            }
            let v = f(x, y, z);
            data.push(v);
            i = i + 1;
        }
        Self { data }
    }

    /// Computes the flat array index for a given in-bounds coordinate.
    pub fn index(x: u32, y: u32, z: u32) -> (r: usize)
        requires
            vox_in_bounds(x as int, y as int, z as int),
        ensures
            r == vox_index(x as int, y as int, z as int),
    {
        (x + y * 32 + z * 1024) as usize
    }

    /// Checks if coordinates are within bounds.
    pub fn in_bounds(x: i32, y: i32, z: i32) -> (r: bool)
        ensures
            r == vox_in_bounds(x as int, y as int, z as int),
    {
        x >= 0 && y >= 0 && z >= 0 && x < 32 && y < 32 && z < 32
    }

    /// The raw bytes of the grid, in linear layout.
    pub fn as_bytes(&self) -> (r: &Vec<u8>)
        ensures
            r@ == self@,
    {
        &self.data
    }

    /// Sets the material id at the given coordinates.
    ///
    /// Silently ignores out-of-bounds coordinates, so brush loops that
    /// iterate a bounding box never need their own bounds checks.
    pub fn set(&mut self, x: u32, y: u32, z: u32, material_id: u8)
        requires
            old(self).wf(),
        ensures
            final(self).wf(),
            vox_in_bounds(x as int, y as int, z as int) ==> final(self)@ == old(self)@.update(
                vox_index(x as int, y as int, z as int),
                material_id,
            ),
            !vox_in_bounds(x as int, y as int, z as int) ==> final(self)@ == old(self)@,
            forall|a: int, b: int, c: int|
                vox_in_bounds(a, b, c) ==> final(self).at(a, b, c) == if a == x && b == y && c
                    == z {
                    material_id
                } else {
                    old(self).at(a, b, c)
                },
    {
        if x < FIELD_SIZE && y < FIELD_SIZE && z < FIELD_SIZE {
            let i = Self::index(x, y, z);
            self.data[i] = material_id;
            proof {
                assert forall|a: int, b: int, c: int| vox_in_bounds(a, b, c) implies self.at(
                    a,
                    b,
                    c,
                ) == if a == x && b == y && c == z {
                    material_id
                } else {
                    old(self).at(a, b, c)
                } by {
                    if a == x && b == y && c == z {
                    } else {
                        if vox_index(a, b, c) == vox_index(x as int, y as int, z as int) {
                            lemma_vox_index_injective(
                                a,
                                b,
                                c,
                                x as int,
                                y as int,
                                z as int,
                            );
                        }
                    }
                }
            }
        }
    }

    /// Gets the material id at the given coordinates.
    ///
    /// Returns 0 for out-of-bounds coordinates.
    pub fn get(&self, x: u32, y: u32, z: u32) -> (r: u8)
        requires
            self.wf(),
        ensures
            r == self.get_spec(x as int, y as int, z as int),
    {
        if x < FIELD_SIZE && y < FIELD_SIZE && z < FIELD_SIZE {
            let i = Self::index(x, y, z);
            self.data[i]
        } else {
            0
        }
    }

    /// Gets the material id using signed coordinates.
    ///
    /// Returns `None` for out-of-bounds coordinates.
    pub fn get_signed(&self, x: i32, y: i32, z: i32) -> (r: Option<u8>)
        requires
            self.wf(),
        ensures
            r == if vox_in_bounds(x as int, y as int, z as int) {
                Some(self.at(x as int, y as int, z as int))
            } else {
                None::<u8>
            },
    {
        if Self::in_bounds(x, y, z) {
            let i = Self::index(x as u32, y as u32, z as u32);
            Some(self.data[i])
        } else {
            None
        }
    }

    /// Gets the material id with each coordinate clamped into bounds.
    pub fn get_clamped(&self, x: i32, y: i32, z: i32) -> (r: u8)
        requires
            self.wf(),
        ensures
            r == self.at(clamp_axis(x as int), clamp_axis(y as int), clamp_axis(z as int)),
    {
        let cx = if x < 0 {
            0u32
        } else if x > 31 {
            31u32
        } else {
            x as u32
        };
        let cy = if y < 0 {
            0u32
        } else if y > 31 {
            31u32
        } else {
            y as u32
        };
        let cz = if z < 0 {
            0u32
        } else if z > 31 {
            31u32
        } else {
            z as u32
        };
        let i = Self::index(cx, cy, cz);
        self.data[i]
    }

    /// Fills the entire field with a single material.
    #[verifier::loop_isolation(false)]
    pub fn fill(&mut self, material_id: u8)
        requires
            old(self).wf(),
        ensures
            final(self).wf(),
            forall|i: int| 0 <= i < 32768 ==> final(self)@[i] == material_id,
    {
        let mut i: usize = 0;
        while i < FIELD_VOLUME
            invariant
                self.wf(),
                i <= 32768,
                forall|j: int| 0 <= j < i ==> self@[j] == material_id,
            decreases 32768 - i,
        {
            self.data[i] = material_id;
            i = i + 1;
        }
    }

    /// Fills the field row by row from a table of 32 material ids, one
    /// per `y` level. Callers that derive the table from a height
    /// function evaluate that function once per level and hand the
    /// results here.
    #[verifier::loop_isolation(false)]
    pub fn fill_y_levels(&mut self, levels: &[u8])
        requires
            old(self).wf(),
            levels@.len() == 32,
        ensures
            final(self).wf(),
            forall|x: int, y: int, z: int|
                vox_in_bounds(x, y, z) ==> #[trigger] final(self).at(x, y, z) == levels@[y],
    {
        let mut i: usize = 0;
        while i < FIELD_VOLUME
            invariant
                self.wf(),
                i <= 32768,
                levels@.len() == 32,
                forall|j: int| 0 <= j < i ==> #[trigger] self@[j] == levels@[row_of(j)],
            decreases 32768 - i,
        {
            let y = (i / 32) % 32;
            self.data[i] = levels[y];
            i = i + 1;
        }
        assert forall|x: int, y: int, z: int| vox_in_bounds(x, y, z) implies #[trigger] self.at(
            x,
            y,
            z,
        ) == levels@[y] by {
            lemma_vox_index_y(x, y, z);
        }
    }

    /// Paints every voxel with the value of a sampler function.
    #[verifier::loop_isolation(false)]
    pub fn paint_with<F: Fn(u32, u32, u32) -> u8>(&mut self, sampler: F)
        requires
            old(self).wf(),
            forall|x: u32, y: u32, z: u32| sampler.requires((x, y, z)),
        ensures
            final(self).wf(),
            forall|x: u32, y: u32, z: u32|
                vox_in_bounds(x as int, y as int, z as int) ==> sampler.ensures(
                    (x, y, z),
                    #[trigger] final(self).at(x as int, y as int, z as int),
                ),
    {
        let mut i: usize = 0;
        while i < FIELD_VOLUME
            invariant
                self.wf(),
                i <= 32768,
                forall|x: u32, y: u32, z: u32| sampler.requires((x, y, z)),
                forall|x: u32, y: u32, z: u32|
                    vox_in_bounds(x as int, y as int, z as int) && vox_index(
                        x as int,
                        y as int,
                        z as int,
                    ) < i ==> sampler.ensures(
                        (x, y, z),
                        #[trigger] self@[vox_index(x as int, y as int, z as int)],
                    ),
            decreases 32768 - i,
        {
            let x = (i % 32) as u32;
            let y = ((i / 32) % 32) as u32;
            let z = (i / 1024) as u32;
            proof {
                lemma_vox_index_cell(x as int, y as int, z as int);
            }
            let v = sampler(x, y, z);
            self.data[i] = v;
            i = i + 1;
        }
    }

    /// Paints materials based on height (the `y` coordinate).
    ///
    /// Each voxel gets the id of the first `(max_height, id)` layer
    /// whose boundary exceeds its `y`; voxels above every boundary get
    /// the last layer, which serves as the implicit fallback for all
    /// heights above the listed maxima.
    #[verifier::loop_isolation(false)]
    pub fn paint_height_layers(&mut self, layers: &[(u32, u8)])
        requires
            old(self).wf(),
        ensures
            final(self).wf(),
            forall|x: int, y: int, z: int|
                vox_in_bounds(x, y, z) ==> #[trigger] final(self).at(x, y, z)
                    == layer_material_or_last(layers@, y),
    {
        let mut i: usize = 0;
        while i < FIELD_VOLUME
            invariant
                self.wf(),
                i <= 32768,
                forall|j: int| 0 <= j < i ==> #[trigger] self@[j] == layer_material_or_last(
                    layers@,
                    row_of(j),
                ),
            decreases 32768 - i,
        {
            let y = ((i / 32) % 32) as u32;
            let m = layer_lookup_or_last(layers, y);
            self.data[i] = m;
            i = i + 1;
        }
        assert forall|x: int, y: int, z: int| vox_in_bounds(x, y, z) implies #[trigger] self.at(
            x,
            y,
            z,
        ) == layer_material_or_last(layers@, y) by {
            lemma_vox_index_y(x, y, z);
        }
    }

    /// Paints a spherical region with a material: every in-bounds voxel
    /// whose integer coordinates lie within `radius` of `center` is set
    /// to `material_id`. A negative radius paints nothing.
    #[verifier::loop_isolation(false)]
    pub fn paint_sphere(&mut self, cx: i32, cy: i32, cz: i32, radius: i32, material_id: u8)
        requires
            old(self).wf(),
        ensures
            final(self).wf(),
            forall|x: int, y: int, z: int|
                vox_in_bounds(x, y, z) ==> #[trigger] final(self).at(x, y, z) == if radius >= 0
                    && in_sphere(x, y, z, cx as int, cy as int, cz as int, radius as int) {
                    material_id
                } else {
                    old(self).at(x, y, z)
                },
    {
        let lx64: i64 = cx as i64 - radius as i64;
        let ly64: i64 = cy as i64 - radius as i64;
        let lz64: i64 = cz as i64 - radius as i64;
        let hx64: i64 = if cx as i64 + radius as i64 > 31 {
            31
        } else {
            cx as i64 + radius as i64
        };
        let hy64: i64 = if cy as i64 + radius as i64 > 31 {
            31
        } else {
            cy as i64 + radius as i64
        };
        let hz64: i64 = if cz as i64 + radius as i64 > 31 {
            31
        } else {
            cz as i64 + radius as i64
        };
        let lx: u32 = if lx64 < 0 {
            0
        } else if lx64 > 32 {
            32
        } else {
            lx64 as u32
        };
        let ly: u32 = if ly64 < 0 {
            0
        } else if ly64 > 32 {
            32
        } else {
            ly64 as u32
        };
        let lz: u32 = if lz64 < 0 {
            0
        } else if lz64 > 32 {
            32
        } else {
            lz64 as u32
        };
        let ghost painted = |x: int, y: int, z: int|
            radius >= 0 && in_sphere(x, y, z, cx as int, cy as int, cz as int, radius as int);
        proof {
            assert forall|a: int, b: int, c: int|
                vox_in_bounds(a, b, c) && painted(a, b, c) implies lx64 <= a <= hx64 && ly64 <= b
                <= hy64 && lz64 <= c <= hz64 by {
                lemma_sphere_axis(a - cx as int, b - cy as int, c - cz as int, radius as int);
            }
        }
        let mut z: u32 = lz;
        while z <= 31 && (z as i64) <= hz64
            invariant
                self.wf(),
                lz <= z,
                forall|a: int, b: int, c: int|
                    vox_in_bounds(a, b, c) ==> #[trigger] self.at(a, b, c) == if painted(a, b, c)
                        && c < z {
                        material_id
                    } else {
                        old(self).at(a, b, c)
                    },
            decreases 32 - z,
        {
            let mut y: u32 = ly;
            while y <= 31 && (y as i64) <= hy64
                invariant
                    self.wf(),
                    ly <= y,
                    forall|a: int, b: int, c: int|
                        vox_in_bounds(a, b, c) ==> #[trigger] self.at(a, b, c) == if painted(
                            a,
                            b,
                            c,
                        ) && (c < z || (c == z && b < y)) {
                            material_id
                        } else {
                            old(self).at(a, b, c)
                        },
                decreases 32 - y,
            {
                let mut x: u32 = lx;
                while x <= 31 && (x as i64) <= hx64
                    invariant
                        self.wf(),
                        lx <= x,
                        forall|a: int, b: int, c: int|
                            vox_in_bounds(a, b, c) ==> #[trigger] self.at(a, b, c) == if painted(
                                a,
                                b,
                                c,
                            ) && (c < z || (c == z && b < y) || (c == z && b == y && a < x)) {
                                material_id
                            } else {
                                old(self).at(a, b, c)
                            },
                    decreases 32 - x,
                {
                    let dx: i128 = x as i128 - cx as i128;
                    let dy: i128 = y as i128 - cy as i128;
                    let dz: i128 = z as i128 - cz as i128;
                    proof {
                        assert(0 <= dx * dx < 0x1_0000_0000_0000_0000 && 0 <= dy * dy
                            < 0x1_0000_0000_0000_0000 && 0 <= dz * dz < 0x1_0000_0000_0000_0000
                            && 0 <= (radius as i128) * (radius as i128)
                            < 0x1_0000_0000_0000_0000) by (nonlinear_arith)
                            requires
                                -0x1_0000_0000 < dx < 0x1_0000_0000,
                                -0x1_0000_0000 < dy < 0x1_0000_0000,
                                -0x1_0000_0000 < dz < 0x1_0000_0000,
                                -0x1_0000_0000 < (radius as i128) < 0x1_0000_0000,
                        ;
                    }
                    if dx * dx + dy * dy + dz * dz <= radius as i128 * radius as i128 {
                        self.set(x, y, z, material_id);
                    }
                    assert forall|a: int, b: int, c: int|
                        vox_in_bounds(a, b, c) implies #[trigger] self.at(a, b, c) == if painted(
                        a,
                        b,
                        c,
                    ) && (c < z || (c == z && b < y) || (c == z && b == y && a < x + 1)) {
                        material_id
                    } else {
                        old(self).at(a, b, c)
                    } by {
                        if a == x && b == y && c == z && painted(a, b, c) {
                            lemma_sphere_axis(
                                a - cx as int,
                                b - cy as int,
                                c - cz as int,
                                radius as int,
                            );
                        }
                    }
                    x = x + 1;
                }
                assert forall|a: int, b: int, c: int|
                    vox_in_bounds(a, b, c) && painted(a, b, c) && c == z && b
                        == y implies #[trigger] self.at(a, b, c) == material_id by {
                    lemma_sphere_axis(
                        a - cx as int,
                        b - cy as int,
                        c - cz as int,
                        radius as int,
                    );
                }
                y = y + 1;
            }
            assert forall|a: int, b: int, c: int|
                vox_in_bounds(a, b, c) && painted(a, b, c) && c == z implies #[trigger] self.at(
                a,
                b,
                c,
            ) == material_id by {
                lemma_sphere_axis(a - cx as int, b - cy as int, c - cz as int, radius as int);
            }
            z = z + 1;
        }
        assert forall|a: int, b: int, c: int|
            vox_in_bounds(a, b, c) && painted(a, b, c) implies #[trigger] self.at(a, b, c)
                == material_id by {
            lemma_sphere_axis(a - cx as int, b - cy as int, c - cz as int, radius as int);
        }
    }

    /// Paints an axis-aligned box region with a material.
    ///
    /// The box is clipped to the grid; both corners are inclusive.
    #[verifier::loop_isolation(false)]
    pub fn paint_box(
        &mut self,
        min_x: i32,
        min_y: i32,
        min_z: i32,
        max_x: i32,
        max_y: i32,
        max_z: i32,
        material_id: u8,
    )
        requires
            old(self).wf(),
        ensures
            final(self).wf(),
            forall|x: int, y: int, z: int|
                vox_in_bounds(x, y, z) ==> #[trigger] final(self).at(x, y, z) == if min_x <= x
                    <= max_x && min_y <= y <= max_y && min_z <= z <= max_z {
                    material_id
                } else {
                    old(self).at(x, y, z)
                },
    {
        let lx: u32 = if min_x < 0 {
            0
        } else {
            min_x as u32
        };
        let ly: u32 = if min_y < 0 {
            0
        } else {
            min_y as u32
        };
        let lz: u32 = if min_z < 0 {
            0
        } else {
            min_z as u32
        };
        let hx: i32 = if max_x > 31 {
            31
        } else {
            max_x
        };
        let hy: i32 = if max_y > 31 {
            31
        } else {
            max_y
        };
        let hz: i32 = if max_z > 31 {
            31
        } else {
            max_z
        };
        let ghost painted = |x: int, y: int, z: int|
            min_x <= x <= max_x && min_y <= y <= max_y && min_z <= z <= max_z;
        let mut z: u32 = lz;
        while z <= 31 && (hz >= 0 && z <= hz as u32)
            invariant
                self.wf(),
                lz <= z,
                forall|a: int, b: int, c: int|
                    vox_in_bounds(a, b, c) ==> #[trigger] self.at(a, b, c) == if painted(a, b, c)
                        && c < z {
                        material_id
                    } else {
                        old(self).at(a, b, c)
                    },
            decreases 32 - z,
        {
            let mut y: u32 = ly;
            while y <= 31 && (hy >= 0 && y <= hy as u32)
                invariant
                    self.wf(),
                    ly <= y,
                    forall|a: int, b: int, c: int|
                        vox_in_bounds(a, b, c) ==> #[trigger] self.at(a, b, c) == if painted(
                            a,
                            b,
                            c,
                        ) && (c < z || (c == z && b < y)) {
                            material_id
                        } else {
                            old(self).at(a, b, c)
                        },
                decreases 32 - y,
            {
                let mut x: u32 = lx;
                while x <= 31 && (hx >= 0 && x <= hx as u32)
                    invariant
                        self.wf(),
                        lx <= x,
                        forall|a: int, b: int, c: int|
                            vox_in_bounds(a, b, c) ==> #[trigger] self.at(a, b, c) == if painted(
                                a,
                                b,
                                c,
                            ) && (c < z || (c == z && b < y) || (c == z && b == y && a < x)) {
                                material_id
                            } else {
                                old(self).at(a, b, c)
                            },
                    decreases 32 - x,
                {
                    self.set(x, y, z, material_id);
                    x = x + 1;
                }
                y = y + 1;
            }
            z = z + 1;
        }
    }
}

} // verus!
