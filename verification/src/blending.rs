//! The material blending engine.
//!
//! Given a vertex position on the generated surface mesh, the chunk's
//! material and density grids, and cached boundary data from up to six
//! neighboring chunks, this module produces a compact, normalized blend
//! of at most four materials for that vertex.
//!
//! The eight voxels around the vertex's cell each contribute their
//! material, weighted by how far inside the solid they lie. A corner
//! whose density or material cannot be resolved — out of bounds with no
//! cached neighbor data — is excluded entirely rather than defaulted,
//! so unloaded neighbors never bleed the default material across a
//! seam. Contributions are merged per material, ranked by weight with
//! ties broken by ascending id, cut to the top four, normalized to a
//! weight sum of exactly 255, and filtered against a minimum-weight
//! threshold that preserves the same sum.

use vstd::prelude::*;
use vstd::multiset::Multiset;

use crate::density::DensityField;
use crate::field::MaterialField;
use crate::field::vox_in_bounds;
use crate::neighbor::NeighborFields;
use crate::neighbor::den_in_range;
use crate::neighbor::slice_in_range;
use crate::vertex_data::VertexMaterialData;
use crate::vertex_data::weight_sum;

verus! {

/// Fixed-point scale of the fractional part of a grid position.
pub const POS_UNIT: u16 = 1024;

/// Settings for material blending at vertices.
#[derive(Clone, Copy, Debug)]
pub struct BlendConfig {
    /// Weight corners by density magnitude; when false, every interior
    /// corner counts the same.
    pub density_weighted: bool,

    /// Sharpness exponent applied to the interior magnitude.
    /// 1 keeps the weighting linear; higher values sharpen the
    /// transitions between materials.
    pub power: u32,

    /// Minimum weight (out of 255) a material must reach to stay in
    /// the blend.
    pub min_weight: u8,
}

impl BlendConfig {
    /// True when the sharpness exponent lies in the supported range.
    pub open spec fn wf(self) -> bool {
        1 <= self.power <= 4
    }
}

impl Default for BlendConfig {
    /// The default blend: linear density weighting with a noise filter
    /// at 5 of 255.
    fn default() -> (r: Self)
        ensures
            r.density_weighted == true,
            r.power == 1,
            r.min_weight == 5,
            r.wf(),
    {
        BlendConfig { density_weighted: true, power: 1, min_weight: 5 }
    }
}

/// A vertex position in the grid's fractional coordinate space, split
/// into the cell holding it and the fractional offset within that cell
/// in units of 1/1024. The cell is the floor of the position; the
/// fraction is what remains.
#[derive(Clone, Copy, Debug, PartialEq, Eq, Structural)]
pub struct GridPoint {
    pub cell_x: i32,
    pub cell_y: i32,
    pub cell_z: i32,
    pub frac_x: u16,
    pub frac_y: u16,
    pub frac_z: u16,
}

impl GridPoint {
    /// True when the fractions are proper (below one voxel) and the
    /// cell lies within the coordinate range the engine supports, far
    /// beyond any position a mesher hands over for a 32-voxel chunk.
    pub open spec fn wf(self) -> bool {
        &&& self.frac_x < 1024
        &&& self.frac_y < 1024
        &&& self.frac_z < 1024
        &&& -1000000 <= self.cell_x <= 1000000
        &&& -1000000 <= self.cell_y <= 1000000
        &&& -1000000 <= self.cell_z <= 1000000
    }

    /// Builds a grid point from a cell and proper per-axis fractions.
    pub fn new(cell_x: i32, cell_y: i32, cell_z: i32, frac_x: u16, frac_y: u16, frac_z: u16) -> (r:
        Self)
        requires
            -1000000 <= cell_x <= 1000000,
            -1000000 <= cell_y <= 1000000,
            -1000000 <= cell_z <= 1000000,
            frac_x < 1024,
            frac_y < 1024,
            frac_z < 1024,
        ensures
            r == (GridPoint { cell_x, cell_y, cell_z, frac_x, frac_y, frac_z }),
            r.wf(),
    {
        GridPoint { cell_x, cell_y, cell_z, frac_x, frac_y, frac_z }
    }

    /// The voxel nearest to the position along one axis: the cell
    /// itself while the fraction stays below half a voxel, else the
    /// next voxel.
    pub open spec fn nearest_axis(cell: int, frac: int) -> int {
        if frac >= 512 {
            cell + 1
        } else {
            cell
        }
    }
}

/// The offset of cube corner `i` from the base cell, in the fixed
/// corner order (x varies fastest).
pub open spec fn corner_offset(i: int) -> (int, int, int) {
    if i == 0 {
        (0, 0, 0)
    } else if i == 1 {
        (1, 0, 0)
    } else if i == 2 {
        (0, 1, 0)
    } else if i == 3 {
        (1, 1, 0)
    } else if i == 4 {
        (0, 0, 1)
    } else if i == 5 {
        (1, 0, 1)
    } else if i == 6 {
        (0, 1, 1)
    } else {
        (1, 1, 1)
    }
}

/// The material at a voxel as blending sees it: the chunk's own grid
/// inside the bounds, the neighbor cache outside them, and `None` when
/// neither resolves the position.
pub open spec fn resolved_mat(
    m: &MaterialField,
    nm: Option<&NeighborFields<u8>>,
    x: int,
    y: int,
    z: int,
) -> Option<u8> {
    if vox_in_bounds(x, y, z) {
        Some(m.at(x, y, z))
    } else {
        match nm {
            Some(n) => n.sample_spec(x, y, z),
            None => None,
        }
    }
}

/// The density at a voxel as blending sees it; `None` when neither the
/// chunk's own grid nor the neighbor cache resolves the position.
pub open spec fn resolved_den(
    den: &DensityField,
    nd: Option<&NeighborFields<i32>>,
    x: int,
    y: int,
    z: int,
) -> Option<i32> {
    if vox_in_bounds(x, y, z) {
        Some(den.at(x, y, z))
    } else {
        match nd {
            Some(n) => n.sample_spec(x, y, z),
            None => None,
        }
    }
}

/// `base` raised to a small power.
pub open spec fn pow_nat(base: int, e: nat) -> int
    decreases e,
{
    if e == 0 {
        1
    } else {
        base * pow_nat(base, (e - 1) as nat)
    }
}

/// The blend weight a corner earns from its density: interior corners
/// (negative density) weigh their interior magnitude raised to the
/// sharpness exponent, or one flat unit when density weighting is off;
/// exterior corners weigh nothing.
pub open spec fn weight_of_density(d: int, cfg: BlendConfig) -> int {
    if d >= 0 {
        0
    } else if cfg.density_weighted {
        pow_nat(-d, cfg.power as nat)
    } else {
        1
    }
}

/// Largest weight one corner can earn: the density magnitude cap
/// raised to the largest sharpness exponent.
pub open spec fn max_corner_weight() -> int {
    0x100000000000000000000
}

/// The weight of an in-range density is positive exactly for interior
/// corners and never exceeds the corner weight cap.
pub proof fn lemma_weight_bounds(d: int, cfg: BlendConfig)
    requires
        cfg.wf(),
        -1048576 <= d <= 1048576,
    ensures
        0 <= weight_of_density(d, cfg) <= max_corner_weight(),
        weight_of_density(d, cfg) > 0 <==> d < 0,
{
    if d < 0 && cfg.density_weighted {
        let m = -d;
        assert(pow_nat(m, 1) == m * pow_nat(m, 0));
        assert(pow_nat(m, 2) == m * pow_nat(m, 1));
        assert(pow_nat(m, 3) == m * pow_nat(m, 2));
        assert(pow_nat(m, 4) == m * pow_nat(m, 3));
        assert(0 < m * m <= 0x10000000000 && 0 < m * (m * m) <= 0x1000000000000000 && 0 < m * (m
            * (m * m)) <= 0x100000000000000000000) by (nonlinear_arith)
            requires
                0 < m <= 0x100000,
        ;
    }
}

/// Computes the blend weight of one corner from its fixed-point
/// density.
pub fn corner_weight(d: i32, config: &BlendConfig) -> (w: u128)
    requires
        config.wf(),
        -1048576 <= d <= 1048576,
    ensures
        w == weight_of_density(d as int, *config),
{
    proof {
        lemma_weight_bounds(d as int, *config);
    }
    if d >= 0 {
        0
    } else if !config.density_weighted {
        1
    } else {
        let m: u128 = (-(d as i64)) as u128;
        proof {
            assert(pow_nat(m as int, 1) == m * pow_nat(m as int, 0));
            assert(pow_nat(m as int, 2) == m * pow_nat(m as int, 1));
            assert(pow_nat(m as int, 3) == m * pow_nat(m as int, 2));
            assert(pow_nat(m as int, 4) == m * pow_nat(m as int, 3));
            assert(0 <= (m as int) * (m as int) <= 0x10000000000 && 0 <= (m as int) * ((m as int)
                * (m as int)) <= 0x1000000000000000 && 0 <= (m as int) * ((m as int) * ((m as int)
                * (m as int))) <= 0x100000000000000000000) by (nonlinear_arith)
                requires
                    0 <= (m as int) <= 0x100000,
            ;
        }
        if config.power == 1 {
            m
        } else if config.power == 2 {
            m * m
        } else if config.power == 3 {
            m * (m * m)
        } else {
            m * (m * (m * m))
        }
    }
}

/// Resolves the material blending reads at a voxel: the chunk's own
/// grid in bounds, the neighbor cache out of bounds, `None` when
/// neither covers the position.
pub fn resolve_material(
    materials: &MaterialField,
    material_neighbors: Option<&NeighborFields<u8>>,
    x: i32,
    y: i32,
    z: i32,
) -> (r: Option<u8>)
    requires
        materials.wf(),
        match material_neighbors {
            Some(n) => n.wf(),
            None => true,
        },
    ensures
        r == resolved_mat(materials, material_neighbors, x as int, y as int, z as int),
{
    match materials.get_signed(x, y, z) {
        Some(m) => Some(m),
        None => match material_neighbors {
            Some(n) => n.sample(x, y, z),
            None => None,
        },
    }
}

/// Resolves the density blending reads at a voxel, like
/// [`resolve_material`].
pub fn resolve_density(
    density: &DensityField,
    density_neighbors: Option<&NeighborFields<i32>>,
    x: i32,
    y: i32,
    z: i32,
) -> (r: Option<i32>)
    requires
        density.wf(),
        match density_neighbors {
            Some(n) => n.wf(),
            None => true,
        },
    ensures
        r == resolved_den(density, density_neighbors, x as int, y as int, z as int),
{
    match density.get_signed(x, y, z) {
        Some(d) => Some(d),
        None => match density_neighbors {
            Some(n) => n.sample(x, y, z),
            None => None,
        },
    }
}

/// The smaller of two values.
pub open spec fn min2(a: int, b: int) -> int {
    if a <= b {
        a
    } else {
        b
    }
}

/// `a / b` rounded to the nearest integer, halves rounding up.
pub open spec fn round_div(a: int, b: int) -> int {
    (2 * a + b) / (2 * b)
}

/// Executable contribution pairs seen with mathematical weights.
pub open spec fn pairs_view(s: Seq<(u8, u128)>) -> Seq<(u8, int)> {
    s.map_values(|p: (u8, u128)| (p.0, p.1 as int))
}

/// The contributions of the first `i` cube corners around cell
/// `(cx, cy, cz)`, in corner order: each corner whose material and
/// density both resolve, and whose weight is positive, contributes its
/// material and weight. Corners that cannot be fully resolved are
/// excluded — never defaulted — and exterior corners carry no weight.
pub open spec fn contribs_prefix(
    cx: int,
    cy: int,
    cz: int,
    m: &MaterialField,
    den: &DensityField,
    nm: Option<&NeighborFields<u8>>,
    nd: Option<&NeighborFields<i32>>,
    cfg: BlendConfig,
    i: int,
) -> Seq<(u8, int)>
    decreases i,
{
    if i <= 0 {
        Seq::empty()
    } else {
        let rest = contribs_prefix(cx, cy, cz, m, den, nm, nd, cfg, i - 1);
        let (ox, oy, oz) = corner_offset(i - 1);
        match (
            resolved_mat(m, nm, cx + ox, cy + oy, cz + oz),
            resolved_den(den, nd, cx + ox, cy + oy, cz + oz),
        ) {
            (Some(mat), Some(d)) => if weight_of_density(d as int, cfg) > 0 {
                rest.push((mat, weight_of_density(d as int, cfg)))
            } else {
                rest
            },
            _ => rest,
        }
    }
}

/// The contributions of all eight cube corners around a cell.
pub open spec fn corner_contribs(
    cx: int,
    cy: int,
    cz: int,
    m: &MaterialField,
    den: &DensityField,
    nm: Option<&NeighborFields<u8>>,
    nd: Option<&NeighborFields<i32>>,
    cfg: BlendConfig,
) -> Seq<(u8, int)> {
    contribs_prefix(cx, cy, cz, m, den, nm, nd, cfg, 8)
}

/// The summed weight a material id earns over a contribution sequence.
pub open spec fn total_weight(s: Seq<(u8, int)>, id: u8) -> int
    decreases s.len(),
{
    if s.len() == 0 {
        0
    } else {
        total_weight(s.drop_last(), id) + if s.last().0 == id {
            s.last().1
        } else {
            0
        }
    }
}

/// The distinct material ids of a contribution sequence, in order of
/// first occurrence.
pub open spec fn distinct_ids(s: Seq<(u8, int)>) -> Seq<u8>
    decreases s.len(),
{
    if s.len() == 0 {
        Seq::empty()
    } else {
        let r = distinct_ids(s.drop_last());
        if r.contains(s.last().0) {
            r
        } else {
            r.push(s.last().0)
        }
    }
}

/// Contributions merged per material: one pair per distinct id, in
/// first-occurrence order, carrying the id's summed weight. The merge
/// depends only on which ids occur and on their per-id sums, so no
/// input order can change a material's merged weight.
pub open spec fn merged_of(s: Seq<(u8, int)>) -> Seq<(u8, int)> {
    distinct_ids(s).map_values(|id: u8| (id, total_weight(s, id)))
}

/// The blend's ranking: higher weight first; equal weights fall back
/// to the smaller material id, which makes the ranking a strict total
/// order over pairs with distinct ids and the cut deterministic.
pub open spec fn ranks_before(a: (u8, int), b: (u8, int)) -> bool {
    a.1 > b.1 || (a.1 == b.1 && a.0 < b.0)
}

/// A pair inserted into a rank-sorted sequence, before the first entry
/// it outranks.
pub open spec fn insert_pair(s: Seq<(u8, int)>, p: (u8, int)) -> Seq<(u8, int)>
    decreases s.len(),
{
    if s.len() == 0 {
        seq![p]
    } else if ranks_before(p, s[0]) {
        seq![p] + s
    } else {
        seq![s[0]] + insert_pair(s.drop_first(), p)
    }
}

/// A contribution sequence sorted by rank: insertion sort over
/// [`ranks_before`].
pub open spec fn sort_pairs(s: Seq<(u8, int)>) -> Seq<(u8, int)>
    decreases s.len(),
{
    if s.len() == 0 {
        Seq::empty()
    } else {
        insert_pair(sort_pairs(s.drop_last()), s.last())
    }
}

/// The ranked pairs the blend keeps: the merged contributions sorted
/// by rank, cut to at most four.
pub open spec fn retained_pairs(c: Seq<(u8, int)>) -> Seq<(u8, int)> {
    let sorted = sort_pairs(merged_of(c));
    if sorted.len() <= 4 {
        sorted
    } else {
        sorted.take(4)
    }
}

/// The summed weight of a pair sequence.
pub open spec fn sum_weights(r: Seq<(u8, int)>) -> int
    decreases r.len(),
{
    if r.len() == 0 {
        0
    } else {
        sum_weights(r.drop_last()) + r.last().1
    }
}

/// The weight budget (out of 255) already assigned to the first `i`
/// slots by normalization: every slot but the last gets its weight
/// rescaled by `255 / sum` and rounded to nearest, clamped to the
/// remaining budget; the last retained slot gets whatever remains, so
/// the total is 255 by construction.
pub open spec fn norm_running(r: Seq<(u8, int)>, i: int) -> int
    decreases i,
{
    if i <= 0 {
        0
    } else {
        let prev = norm_running(r, i - 1);
        let slot = if i - 1 == r.len() - 1 {
            255 - prev
        } else {
            min2(round_div(r[i - 1].1 * 255, sum_weights(r)), 255 - prev)
        };
        prev + slot
    }
}

/// The normalized weight of slot `i`.
pub open spec fn norm_at(r: Seq<(u8, int)>, i: int) -> int {
    if i == r.len() - 1 {
        255 - norm_running(r, i)
    } else {
        min2(round_div(r[i].1 * 255, sum_weights(r)), 255 - norm_running(r, i))
    }
}

/// The four normalized weight slots of the retained pairs; unused
/// slots weigh nothing.
pub open spec fn norm_weights(r: Seq<(u8, int)>) -> Seq<int> {
    Seq::new(4, |i: int| if i < r.len() {
        norm_at(r, i)
    } else {
        0
    })
}

/// The four id slots of the retained pairs; unused slots carry id 0.
pub open spec fn norm_ids(r: Seq<(u8, int)>) -> Seq<u8> {
    Seq::new(4, |i: int| if i < r.len() {
        r[i].0
    } else {
        0u8
    })
}

/// True when every weight of the sequence is positive.
pub open spec fn all_pos(s: Seq<(u8, int)>) -> bool {
    forall|j: int| 0 <= j < s.len() ==> #[trigger] s[j].1 > 0
}

/// True when every weight stays within what eight corners can earn.
pub open spec fn all_bounded(s: Seq<(u8, int)>) -> bool {
    forall|j: int| 0 <= j < s.len() ==> #[trigger] s[j].1 <= 8 * max_corner_weight()
}

/// A merged weight cannot exceed what its contributing corners earned.
pub proof fn lemma_total_weight_bound(s: Seq<(u8, int)>, id: u8)
    requires
        forall|j: int| 0 <= j < s.len() ==> #[trigger] s[j].1 <= max_corner_weight(),
    ensures
        total_weight(s, id) <= s.len() * max_corner_weight(),
    decreases s.len(),
{
    if s.len() > 0 {
        assert(s.last() == s[s.len() - 1]);
        lemma_total_weight_bound(s.drop_last(), id);
        assert((s.len() - 1) * max_corner_weight() + max_corner_weight() == s.len()
            * max_corner_weight()) by (nonlinear_arith);
    }
}

/// Weight slots with every entry below the threshold zeroed out.
pub open spec fn zeroed_weights(ws: Seq<int>, min: int) -> Seq<int> {
    Seq::new(4, |i: int| if ws[i] < min {
        0
    } else {
        ws[i]
    })
}

/// The sum of four weight slots.
pub open spec fn seq4_sum(ws: Seq<int>) -> int {
    ws[0] + ws[1] + ws[2] + ws[3]
}

/// The highest slot that kept a positive weight (slot 0 when none
/// did).
pub open spec fn last_nonzero(ws: Seq<int>) -> int {
    if ws[3] > 0 {
        3
    } else if ws[2] > 0 {
        2
    } else if ws[1] > 0 {
        1
    } else {
        0
    }
}

/// The weight budget assigned to the first `i` slots when the
/// surviving weights are renormalized after filtering, with the same
/// remainder correction as [`norm_running`]: zeroed slots stay zero,
/// each surviving slot but the last is rescaled and clamped, and the
/// last surviving slot absorbs the remainder.
pub open spec fn filter_running(z: Seq<int>, i: int) -> int
    decreases i,
{
    if i <= 0 {
        0
    } else {
        let prev = filter_running(z, i - 1);
        let slot = if z[i - 1] == 0 {
            0
        } else if i - 1 == last_nonzero(z) {
            255 - prev
        } else {
            min2(round_div(z[i - 1] * 255, seq4_sum(z)), 255 - prev)
        };
        prev + slot
    }
}

/// The filtered weight of slot `i`.
pub open spec fn filter_at(z: Seq<int>, i: int) -> int {
    if z[i] == 0 {
        0
    } else if i == last_nonzero(z) {
        255 - filter_running(z, i)
    } else {
        min2(round_div(z[i] * 255, seq4_sum(z)), 255 - filter_running(z, i))
    }
}

/// The minimum-weight filter over four weight slots: weights below the
/// threshold are zeroed, the survivors are renormalized to sum to 255
/// with the same remainder correction as normalization, and when the
/// filter zeroes every slot the first slot is forced to the full
/// weight so the sum invariant holds even then.
pub open spec fn filtered_weights(ws: Seq<int>, min: int) -> Seq<int> {
    let z = zeroed_weights(ws, min);
    if seq4_sum(z) == 0 {
        seq![255, 0, 0, 0]
    } else {
        Seq::new(4, |i: int| filter_at(z, i))
    }
}

/// The material the blend falls back to when no corner contributes:
/// the corner nearest to the fractional position, when it resolves,
/// else the default material 0.
pub open spec fn fallback_material(
    p: GridPoint,
    m: &MaterialField,
    nm: Option<&NeighborFields<u8>>,
) -> u8 {
    match resolved_mat(
        m,
        nm,
        GridPoint::nearest_axis(p.cell_x as int, p.frac_x as int),
        GridPoint::nearest_axis(p.cell_y as int, p.frac_y as int),
        GridPoint::nearest_axis(p.cell_z as int, p.frac_z as int),
    ) {
        Some(mm) => mm,
        None => 0,
    }
}

/// The four material ids the blend stores for a vertex.
pub open spec fn blend_ids(
    p: GridPoint,
    m: &MaterialField,
    den: &DensityField,
    nm: Option<&NeighborFields<u8>>,
    nd: Option<&NeighborFields<i32>>,
    cfg: BlendConfig,
) -> Seq<u8> {
    let c = corner_contribs(p.cell_x as int, p.cell_y as int, p.cell_z as int, m, den, nm, nd, cfg);
    if c.len() == 0 {
        seq![fallback_material(p, m, nm), 0u8, 0u8, 0u8]
    } else {
        norm_ids(retained_pairs(c))
    }
}

/// The four blend weights the blend stores for a vertex.
pub open spec fn blend_weights(
    p: GridPoint,
    m: &MaterialField,
    den: &DensityField,
    nm: Option<&NeighborFields<u8>>,
    nd: Option<&NeighborFields<i32>>,
    cfg: BlendConfig,
) -> Seq<int> {
    let c = corner_contribs(p.cell_x as int, p.cell_y as int, p.cell_z as int, m, den, nm, nd, cfg);
    if c.len() == 0 {
        seq![255, 0, 0, 0]
    } else {
        filtered_weights(norm_weights(retained_pairs(c)), cfg.min_weight as int)
    }
}

/// A density sampled from an in-range cache stays within the stored
/// range.
pub proof fn lemma_sample_den_in_range(n: NeighborFields<i32>, x: int, y: int, z: int)
    requires
        den_in_range(n),
    ensures
        match n.sample_spec(x, y, z) {
            Some(d) => -1048576 <= d <= 1048576,
            None => true,
        },
{
}

/// A density the blend resolves stays within the stored range.
pub proof fn lemma_resolved_den_in_range(
    den: &DensityField,
    nd: Option<&NeighborFields<i32>>,
    x: int,
    y: int,
    z: int,
)
    requires
        den.wf(),
        match nd {
            Some(n) => den_in_range(*n),
            None => true,
        },
    ensures
        match resolved_den(den, nd, x, y, z) {
            Some(d) => -1048576 <= d <= 1048576,
            None => true,
        },
{
    if !vox_in_bounds(x, y, z) {
        match nd {
            Some(n) => lemma_sample_den_in_range(*n, x, y, z),
            None => (),
        }
    }
}

/// Every corner contribution carries a positive weight no larger than
/// the corner weight cap.
pub proof fn lemma_contribs_bounded(
    cx: int,
    cy: int,
    cz: int,
    m: &MaterialField,
    den: &DensityField,
    nm: Option<&NeighborFields<u8>>,
    nd: Option<&NeighborFields<i32>>,
    cfg: BlendConfig,
    i: int,
)
    requires
        cfg.wf(),
        den.wf(),
        match nd {
            Some(n) => den_in_range(*n),
            None => true,
        },
    ensures
        forall|j: int|
            0 <= j < contribs_prefix(cx, cy, cz, m, den, nm, nd, cfg, i).len() ==> 0
                < #[trigger] contribs_prefix(cx, cy, cz, m, den, nm, nd, cfg, i)[j].1
                <= max_corner_weight(),
    decreases i,
{
    if i > 0 {
        lemma_contribs_bounded(cx, cy, cz, m, den, nm, nd, cfg, i - 1);
        let (ox, oy, oz) = corner_offset(i - 1);
        lemma_resolved_den_in_range(den, nd, cx + ox, cy + oy, cz + oz);
        match resolved_den(den, nd, cx + ox, cy + oy, cz + oz) {
            Some(d) => lemma_weight_bounds(d as int, cfg),
            None => (),
        }
        let c = contribs_prefix(cx, cy, cz, m, den, nm, nd, cfg, i);
        let rest = contribs_prefix(cx, cy, cz, m, den, nm, nd, cfg, i - 1);
        assert forall|j: int| 0 <= j < c.len() implies 0 < #[trigger] c[j].1
            <= max_corner_weight() by {
            if j < rest.len() {
                assert(c[j] == rest[j]);
            }
        }
    }
}

/// Inserting a pair grows the sequence by one and keeps every weight
/// positive when the inserted weight is.
pub proof fn lemma_insert_pair_props(s: Seq<(u8, int)>, p: (u8, int))
    requires
        all_pos(s),
        all_bounded(s),
        p.1 > 0,
        p.1 <= 8 * max_corner_weight(),
    ensures
        insert_pair(s, p).len() == s.len() + 1,
        all_pos(insert_pair(s, p)),
        all_bounded(insert_pair(s, p)),
    decreases s.len(),
{
    if s.len() > 0 && !ranks_before(p, s[0]) {
        assert(all_pos(s.drop_first()) && all_bounded(s.drop_first()));
        lemma_insert_pair_props(s.drop_first(), p);
    }
}

/// Sorting keeps the length and keeps every weight positive.
pub proof fn lemma_sort_props(s: Seq<(u8, int)>)
    requires
        all_pos(s),
        all_bounded(s),
    ensures
        sort_pairs(s).len() == s.len(),
        all_pos(sort_pairs(s)),
        all_bounded(sort_pairs(s)),
    decreases s.len(),
{
    if s.len() > 0 {
        assert(all_pos(s.drop_last()) && all_bounded(s.drop_last()));
        lemma_sort_props(s.drop_last());
        assert(s.last() == s[s.len() - 1]);
        lemma_insert_pair_props(sort_pairs(s.drop_last()), s.last());
    }
}

/// Summed weights are never negative over non-negative entries.
pub proof fn lemma_total_weight_nonneg(s: Seq<(u8, int)>, id: u8)
    requires
        all_pos(s),
    ensures
        total_weight(s, id) >= 0,
    decreases s.len(),
{
    if s.len() > 0 {
        assert(all_pos(s.drop_last()));
        lemma_total_weight_nonneg(s.drop_last(), id);
    }
}

/// A material that occurs at all has a positive merged weight.
pub proof fn lemma_total_weight_pos(s: Seq<(u8, int)>, id: u8)
    requires
        all_pos(s),
        distinct_ids(s).contains(id),
    ensures
        total_weight(s, id) > 0,
    decreases s.len(),
{
    if s.len() > 0 {
        assert(all_pos(s.drop_last()));
        let r = distinct_ids(s.drop_last());
        if r.contains(id) {
            lemma_total_weight_pos(s.drop_last(), id);
        } else {
            assert(id == s.last().0);
            lemma_total_weight_nonneg(s.drop_last(), id);
        }
    }
}

/// A non-empty contribution sequence has at least one distinct id.
pub proof fn lemma_distinct_nonempty(s: Seq<(u8, int)>)
    requires
        s.len() > 0,
    ensures
        distinct_ids(s).len() > 0,
    decreases s.len(),
{
    let r = distinct_ids(s.drop_last());
    if r.contains(s.last().0) {
    }
}

/// Merged contributions all carry positive weights, one per distinct
/// id.
pub proof fn lemma_merged_props(s: Seq<(u8, int)>)
    requires
        all_pos(s),
    ensures
        merged_of(s).len() == distinct_ids(s).len(),
        all_pos(merged_of(s)),
        s.len() > 0 ==> merged_of(s).len() > 0,
{
    assert forall|j: int| 0 <= j < merged_of(s).len() implies #[trigger] merged_of(s)[j].1
        > 0 by {
        assert(distinct_ids(s).contains(distinct_ids(s)[j]));
        lemma_total_weight_pos(s, distinct_ids(s)[j]);
    }
    if s.len() > 0 {
        lemma_distinct_nonempty(s);
    }
}

/// A non-empty sequence of positive weights has a positive sum.
pub proof fn lemma_sum_weights_pos(r: Seq<(u8, int)>)
    requires
        all_pos(r),
        r.len() >= 1,
    ensures
        sum_weights(r) > 0,
    decreases r.len(),
{
    assert(r.last() == r[r.len() - 1]);
    assert(r[r.len() - 1].1 > 0);
    if r.len() == 1 {
        assert(r.drop_last().len() == 0);
        assert(sum_weights(r.drop_last()) == 0);
    }
    if r.len() > 1 {
        assert(all_pos(r.drop_last()));
        lemma_sum_weights_pos(r.drop_last());
    }
}

/// The running normalized budget stays within the 255 total.
pub proof fn lemma_norm_running_bounds(r: Seq<(u8, int)>, i: int)
    requires
        all_pos(r),
        1 <= r.len(),
        sum_weights(r) > 0,
        0 <= i <= r.len(),
    ensures
        0 <= norm_running(r, i) <= 255,
    decreases i,
{
    if i > 0 {
        lemma_norm_running_bounds(r, i - 1);
        if i - 1 != r.len() - 1 {
            let a = r[i - 1].1 * 255;
            let b = sum_weights(r);
            assert(a >= 0);
            assert(2 * a + b >= 0 && 2 * b > 0);
            assert(round_div(a, b) >= 0) by {
                vstd::arithmetic::div_mod::lemma_div_is_ordered(0, 2 * a + b, 2 * b);
            }
        }
    }
}

/// Normalization hands out exactly 255 across the four slots, each
/// slot within range.
pub proof fn lemma_norm_weights_sum(r: Seq<(u8, int)>)
    requires
        all_pos(r),
        1 <= r.len() <= 4,
        sum_weights(r) > 0,
    ensures
        seq4_sum(norm_weights(r)) == 255,
        forall|i: int| 0 <= i < 4 ==> 0 <= #[trigger] norm_weights(r)[i] <= 255,
{
    let n = r.len() as int;
    assert forall|i: int| 0 <= i <= n implies 0 <= #[trigger] norm_running(r, i) <= 255 by {
        lemma_norm_running_bounds(r, i);
    }
    assert(norm_running(r, 0) == 0);
    assert(norm_running(r, 1) == norm_running(r, 0) + norm_at(r, 0));
    if n >= 2 {
        assert(norm_running(r, 2) == norm_running(r, 1) + norm_at(r, 1));
    }
    if n >= 3 {
        assert(norm_running(r, 3) == norm_running(r, 2) + norm_at(r, 2));
    }
    if n >= 4 {
        assert(norm_running(r, 4) == norm_running(r, 3) + norm_at(r, 3));
    }
    assert(norm_running(r, n) == 255);
}

/// The running filtered budget stays within the 255 total and reaches
/// exactly 255 once the last surviving slot has been assigned.
pub proof fn lemma_filter_running_bounds(z: Seq<int>, i: int)
    requires
        forall|j: int| 0 <= j < 4 ==> #[trigger] z[j] >= 0,
        seq4_sum(z) > 0,
        0 <= i <= 4,
    ensures
        0 <= filter_running(z, i) <= 255,
        i > last_nonzero(z) ==> filter_running(z, i) == 255,
    decreases i,
{
    if i > 0 {
        lemma_filter_running_bounds(z, i - 1);
        let l = last_nonzero(z);
        if i - 1 == l {
            assert(z[l] > 0);
        } else if i - 1 > l {
            assert(z[i - 1] == 0);
        } else {
            let a = z[i - 1] * 255;
            let b = seq4_sum(z);
            assert(round_div(a, b) >= 0) by {
                vstd::arithmetic::div_mod::lemma_div_is_ordered(0, 2 * a + b, 2 * b);
            }
        }
    }
}

/// Filtering keeps the weight sum at exactly 255, each slot within
/// range.
pub proof fn lemma_filtered_weights_sum(ws: Seq<int>, min: int)
    requires
        forall|j: int| 0 <= j < 4 ==> #[trigger] ws[j] >= 0,
    ensures
        seq4_sum(filtered_weights(ws, min)) == 255,
        forall|i: int| 0 <= i < 4 ==> 0 <= #[trigger] filtered_weights(ws, min)[i] <= 255,
{
    let z = zeroed_weights(ws, min);
    if seq4_sum(z) == 0 {
    } else {
        assert forall|i: int| 0 <= i <= 4 implies 0 <= #[trigger] filter_running(z, i) <= 255
            && (i > last_nonzero(z) ==> filter_running(z, i) == 255) by {
            lemma_filter_running_bounds(z, i);
        }
        assert(filter_running(z, 0) == 0);
        assert(filter_running(z, 1) == filter_running(z, 0) + filter_at(z, 0));
        assert(filter_running(z, 2) == filter_running(z, 1) + filter_at(z, 1));
        assert(filter_running(z, 3) == filter_running(z, 2) + filter_at(z, 2));
        assert(filter_running(z, 4) == filter_running(z, 3) + filter_at(z, 3));
        assert(filter_running(z, 4) == 255);
    }
}

/// The id column of a contribution sequence.
pub open spec fn ids_of(s: Seq<(u8, int)>) -> Seq<u8> {
    s.map_values(|p: (u8, int)| p.0)
}

/// The distinct ids of a sequence really are distinct.
pub proof fn lemma_distinct_no_dup(s: Seq<(u8, int)>)
    ensures
        forall|i: int, j: int|
            0 <= i < j < distinct_ids(s).len() ==> #[trigger] distinct_ids(s)[i]
                != #[trigger] distinct_ids(s)[j],
    decreases s.len(),
{
    if s.len() > 0 {
        lemma_distinct_no_dup(s.drop_last());
        let r = distinct_ids(s.drop_last());
        if !r.contains(s.last().0) {
            assert forall|i: int, j: int|
                0 <= i < j < distinct_ids(s).len() implies #[trigger] distinct_ids(s)[i]
                != #[trigger] distinct_ids(s)[j] by {
                if j == r.len() {
                    assert(r[i] == distinct_ids(s)[i]);
                }
            }
        }
    }
}

/// A material id that never occurs has no merged weight.
pub proof fn lemma_total_weight_absent(s: Seq<(u8, int)>, id: u8)
    requires
        !distinct_ids(s).contains(id),
    ensures
        total_weight(s, id) == 0,
    decreases s.len(),
{
    if s.len() > 0 {
        let r = distinct_ids(s.drop_last());
        assert(distinct_ids(s).contains(id) == false);
        if r.contains(id) {
            let j = choose|j: int| 0 <= j < r.len() && r[j] == id;
            if r.contains(s.last().0) {
                assert(distinct_ids(s)[j] == id);
            } else {
                assert(distinct_ids(s)[j] == id);
            }
            assert(false);
        }
        lemma_total_weight_absent(s.drop_last(), id);
        if s.last().0 == id {
            if r.contains(s.last().0) {
                assert(false);
            } else {
                assert(distinct_ids(s)[r.len() as int] == id);
                assert(false);
            }
        }
    }
}

/// Inserting before the first outranked entry is the same as splicing
/// at that index.
pub proof fn lemma_insert_pair_at(s: Seq<(u8, int)>, p: (u8, int), idx: int)
    requires
        0 <= idx <= s.len(),
        forall|j: int| 0 <= j < idx ==> !ranks_before(p, #[trigger] s[j]),
        idx < s.len() ==> ranks_before(p, s[idx]),
    ensures
        insert_pair(s, p) == s.take(idx) + seq![p] + s.skip(idx),
    decreases idx,
{
    if idx == 0 {
        if s.len() == 0 {
            assert(insert_pair(s, p) =~= s.take(0) + seq![p] + s.skip(0));
        } else {
            assert(insert_pair(s, p) =~= s.take(0) + seq![p] + s.skip(0));
        }
    } else {
        let d = s.drop_first();
        assert forall|j: int| 0 <= j < idx - 1 implies !ranks_before(p, #[trigger] d[j]) by {
            assert(d[j] == s[j + 1]);
        }
        if idx - 1 < d.len() {
            assert(d[idx - 1] == s[idx]);
        }
        lemma_insert_pair_at(d, p, idx - 1);
        assert(insert_pair(s, p) =~= s.take(idx) + seq![p] + s.skip(idx));
    }
}

/// Collects the contributions of the eight corners around a cell.
#[verifier::loop_isolation(false)]
fn collect_contribs(
    cx: i32,
    cy: i32,
    cz: i32,
    materials: &MaterialField,
    density: &DensityField,
    material_neighbors: Option<&NeighborFields<u8>>,
    density_neighbors: Option<&NeighborFields<i32>>,
    config: &BlendConfig,
) -> (v: Vec<(u8, u128)>)
    requires
        materials.wf(),
        density.wf(),
        config.wf(),
        -1000000 <= cx <= 1000000,
        -1000000 <= cy <= 1000000,
        -1000000 <= cz <= 1000000,
        match material_neighbors {
            Some(n) => n.wf(),
            None => true,
        },
        match density_neighbors {
            Some(n) => n.wf() && den_in_range(*n),
            None => true,
        },
    ensures
        pairs_view(v@) == corner_contribs(
            cx as int,
            cy as int,
            cz as int,
            materials,
            density,
            material_neighbors,
            density_neighbors,
            *config,
        ),
        v@.len() <= 8,
{
    let mut v: Vec<(u8, u128)> = Vec::new();
    let mut i: u32 = 0;
    while i < 8
        invariant
            i <= 8,
            v@.len() <= i,
            pairs_view(v@) == contribs_prefix(
                cx as int,
                cy as int,
                cz as int,
                materials,
                density,
                material_neighbors,
                density_neighbors,
                *config,
                i as int,
            ),
        decreases 8 - i,
    {
        let (ox, oy, oz): (i32, i32, i32) = if i == 0 {
            (0, 0, 0)
        } else if i == 1 {
            (1, 0, 0)
        } else if i == 2 {
            (0, 1, 0)
        } else if i == 3 {
            (1, 1, 0)
        } else if i == 4 {
            (0, 0, 1)
        } else if i == 5 {
            (1, 0, 1)
        } else if i == 6 {
            (0, 1, 1)
        } else {
            (1, 1, 1)
        };
        let px = cx + ox;
        let py = cy + oy;
        let pz = cz + oz;
        let mat_o = resolve_material(materials, material_neighbors, px, py, pz);
        let den_o = resolve_density(density, density_neighbors, px, py, pz);
        match (mat_o, den_o) {
            (Some(mat), Some(d)) => {
                proof {
                    lemma_resolved_den_in_range(
                        density,
                        density_neighbors,
                        px as int,
                        py as int,
                        pz as int,
                    );
                }
                let w = corner_weight(d, config);
                if w > 0 {
                    let ghost pre = v@;
                    v.push((mat, w));
                    proof {
                        assert(pairs_view(v@) =~= pairs_view(pre).push((mat, w as int)));
                    }
                }
            },
            _ => {},
        }
        i = i + 1;
    }
    v
}

/// Merges contributions per material id, keeping first-occurrence
/// order: each distinct id comes out once, carrying its summed weight.
#[verifier::loop_isolation(false)]
pub fn merge_contribs(v: &Vec<(u8, u128)>) -> (agg: Vec<(u8, u128)>)
    requires
        v@.len() <= 8,
        forall|j: int| 0 <= j < v@.len() ==> 0 < (#[trigger] v@[j].1 as int) <= max_corner_weight(),
    ensures
        pairs_view(agg@) == merged_of(pairs_view(v@)),
        agg@.len() <= v@.len(),
        forall|j: int|
            0 <= j < agg@.len() ==> (#[trigger] agg@[j].1 as int) <= 8 * max_corner_weight(),
{
    let ghost full = pairs_view(v@);
    let mut agg: Vec<(u8, u128)> = Vec::new();
    let n = v.len();
    let mut k: usize = 0;
    while k < n
        invariant
            k <= n,
            agg@.len() <= k,
            ids_of(pairs_view(agg@)) == distinct_ids(full.take(k as int)),
            forall|j: int|
                0 <= j < agg@.len() ==> (#[trigger] agg@[j].1 as int) == total_weight(
                    full.take(k as int),
                    agg@[j].0,
                ),
            forall|j: int|
                0 <= j < agg@.len() ==> (#[trigger] agg@[j].1 as int) <= (k as int)
                    * max_corner_weight(),
        decreases n - k,
    {
        let p = v[k];
        let ghost prefix = full.take(k as int);
        let ghost nextfix = full.take(k as int + 1);
        proof {
            assert(nextfix =~= prefix.push(full[k as int]));
            assert(nextfix.drop_last() =~= prefix);
            assert(full[k as int] == (p.0, p.1 as int));
            lemma_distinct_no_dup(prefix);
        }
        let mut idx: usize = 0;
        let mut found = false;
        while idx < agg.len() && !found
            invariant
                idx <= agg@.len(),
                !found ==> forall|j: int| 0 <= j < idx ==> (#[trigger] agg@[j].0) != p.0,
                found ==> idx < agg@.len() && agg@[idx as int].0 == p.0,
            decreases agg@.len() - idx + if found {
                0int
            } else {
                1int
            },
        {
            if agg[idx].0 == p.0 {
                found = true;
            } else {
                idx = idx + 1;
            }
        }
        let ghost pre = agg@;
        if found {
            proof {
                assert(ids_of(pairs_view(pre))[idx as int] == pre[idx as int].0);
                assert(distinct_ids(prefix).contains(p.0));
                assert((pre[idx as int].1 as int) <= (k as int) * max_corner_weight());
                assert((p.1 as int) <= max_corner_weight());
            }
            let w2 = agg[idx].1 + p.1;
            agg[idx] = (p.0, w2);
            proof {
                assert(agg@ =~= pre.update(idx as int, (p.0, w2)));
                assert(distinct_ids(nextfix) == distinct_ids(prefix));
                assert(ids_of(pairs_view(agg@)) =~= ids_of(pairs_view(pre)));
                assert forall|j: int| 0 <= j < agg@.len() implies (#[trigger] agg@[j].1 as int)
                    == total_weight(nextfix, agg@[j].0) by {
                    assert(total_weight(nextfix, agg@[j].0) == total_weight(prefix, agg@[j].0)
                        + if nextfix.last().0 == agg@[j].0 {
                        nextfix.last().1
                    } else {
                        0
                    });
                    if j != idx {
                        assert(agg@[j] == pre[j]);
                        assert(ids_of(pairs_view(pre))[j] == pre[j].0);
                        assert(distinct_ids(prefix)[j] == pre[j].0);
                        assert(distinct_ids(prefix)[idx as int] == p.0);
                        assert(pre[j].0 != p.0);
                    }
                }
            }
        } else {
            proof {
                if distinct_ids(prefix).contains(p.0) {
                    let j = choose|j: int|
                        0 <= j < distinct_ids(prefix).len() && distinct_ids(prefix)[j] == p.0;
                    assert(ids_of(pairs_view(pre))[j] == pre[j].0);
                    assert(false);
                }
                lemma_total_weight_absent(prefix, p.0);
            }
            agg.push(p);
            proof {
                assert(agg@ =~= pre.push(p));
                assert(distinct_ids(nextfix) =~= distinct_ids(prefix).push(p.0));
                assert(ids_of(pairs_view(agg@)) =~= ids_of(pairs_view(pre)).push(p.0));
                assert forall|j: int| 0 <= j < agg@.len() implies (#[trigger] agg@[j].1 as int)
                    == total_weight(nextfix, agg@[j].0) by {
                    assert(total_weight(nextfix, agg@[j].0) == total_weight(prefix, agg@[j].0)
                        + if nextfix.last().0 == agg@[j].0 {
                        nextfix.last().1
                    } else {
                        0
                    });
                    if j < pre.len() {
                        assert(agg@[j] == pre[j]);
                        assert(ids_of(pairs_view(pre))[j] == pre[j].0);
                        assert(distinct_ids(prefix)[j] == pre[j].0);
                        if pre[j].0 == p.0 {
                            assert(distinct_ids(prefix).contains(p.0));
                            assert(false);
                        }
                    } else {
                        assert(agg@[j] == p);
                    }
                }
            }
        }
        k = k + 1;
    }
    proof {
        assert(full.take(n as int) =~= full);
        assert(pairs_view(agg@) =~= merged_of(full));
    }
    agg
}

/// Sorts contributions by rank: weight descending, ties by ascending
/// id.
#[verifier::loop_isolation(false)]
pub fn sort_by_rank(v: Vec<(u8, u128)>) -> (r: Vec<(u8, u128)>)
    ensures
        pairs_view(r@) == sort_pairs(pairs_view(v@)),
        r@.len() == v@.len(),
{
    let ghost full = pairs_view(v@);
    let mut out: Vec<(u8, u128)> = Vec::new();
    let n = v.len();
    let mut k: usize = 0;
    while k < n
        invariant
            k <= n,
            out@.len() == k,
            pairs_view(out@) == sort_pairs(full.take(k as int)),
        decreases n - k,
    {
        let p = v[k];
        let ghost pv_p = (p.0, p.1 as int);
        proof {
            assert(full[k as int] == pv_p);
        }
        let mut idx: usize = 0;
        while idx < out.len() && !(p.1 > out[idx].1 || (p.1 == out[idx].1 && p.0 < out[idx].0))
            invariant
                idx <= out@.len(),
                forall|j: int|
                    0 <= j < idx ==> !ranks_before(pv_p, #[trigger] pairs_view(out@)[j]),
            decreases out@.len() - idx,
        {
            proof {
                assert(pairs_view(out@)[idx as int] == (out@[idx as int].0, out@[idx as int].1
                    as int));
            }
            idx = idx + 1;
        }
        let ghost pre = pairs_view(out@);
        proof {
            if idx < out@.len() {
                assert(pre[idx as int] == (out@[idx as int].0, out@[idx as int].1 as int));
                assert(ranks_before(pv_p, pre[idx as int]));
            }
            lemma_insert_pair_at(pre, pv_p, idx as int);
        }
        out.insert(idx, p);
        proof {
            assert(pairs_view(out@) =~= pre.take(idx as int) + seq![pv_p] + pre.skip(idx as int));
            assert(full.take(k as int + 1).drop_last() =~= full.take(k as int));
            assert(full.take(k as int + 1).last() == pv_p);
            assert(pairs_view(out@) == sort_pairs(full.take(k as int + 1)));
        }
        k = k + 1;
    }
    proof {
        assert(full.take(n as int) =~= full);
    }
    out
}

/// Four weight slots of an array seen as mathematical integers.
pub open spec fn w4(ws: [u8; 4]) -> Seq<int> {
    Seq::new(4, |i: int| ws[i] as int)
}

/// Normalizes the retained pairs into four id and weight slots whose
/// weights sum to exactly 255: every slot but the last is rescaled by
/// `255 / sum` and rounded to nearest, clamped to the remaining
/// budget; the last retained slot absorbs the remainder.
#[verifier::loop_isolation(false)]
fn normalize_retained(r: &Vec<(u8, u128)>) -> (out: ([u8; 4], [u8; 4]))
    requires
        1 <= r@.len() <= 4,
        all_pos(pairs_view(r@)),
        all_bounded(pairs_view(r@)),
    ensures
        out.0@ == norm_ids(pairs_view(r@)),
        forall|i: int| 0 <= i < 4 ==> (#[trigger] out.1@[i] as int) == norm_weights(
            pairs_view(r@),
        )[i],
{
    let ghost rv = pairs_view(r@);
    let n = r.len();
    let mut total: u128 = 0;
    let mut k: usize = 0;
    while k < n
        invariant
            k <= n,
            (total as int) == sum_weights(rv.take(k as int)),
            (total as int) <= (k as int) * 8 * max_corner_weight(),
        decreases n - k,
    {
        proof {
            assert(rv.take(k as int + 1).drop_last() =~= rv.take(k as int));
            assert(rv.take(k as int + 1).last() == rv[k as int]);
            assert(rv[k as int] == (r@[k as int].0, r@[k as int].1 as int));
        }
        total = total + r[k].1;
        k = k + 1;
    }
    proof {
        assert(rv.take(n as int) =~= rv);
        lemma_sum_weights_pos(rv);
    }
    let mut idv: Vec<u8> = Vec::new();
    let mut wv: Vec<u8> = Vec::new();
    let mut running: u32 = 0;
    let mut i: usize = 0;
    while i < 4
        invariant
            i <= 4,
            idv@.len() == i,
            wv@.len() == i,
            (total as int) == sum_weights(rv),
            total > 0,
            forall|j: int| 0 <= j < i ==> #[trigger] idv@[j] == norm_ids(rv)[j],
            forall|j: int| 0 <= j < i ==> (#[trigger] wv@[j] as int) == norm_weights(rv)[j],
            (running as int) == if i <= rv.len() {
                norm_running(rv, i as int)
            } else {
                255int
            },
            running <= 255,
        decreases 4 - i,
    {
        proof {
            lemma_norm_running_bounds(rv, if i <= rv.len() {
                i as int
            } else {
                rv.len() as int
            });
        }
        if i < n {
            let id = r[i].0;
            let w: u8 = if i == n - 1 {
                (255 - running) as u8
            } else {
                proof {
                    assert(rv[i as int] == (r@[i as int].0, r@[i as int].1 as int));
                    assert(rv[i as int].1 <= 8 * max_corner_weight());
                    lemma_norm_running_bounds(rv, i as int + 1);
                }
                let a: u128 = r[i].1 * 255;
                let q: u128 = (2 * a + total) / (2 * total);
                let budget: u128 = (255 - running) as u128;
                let wq: u128 = if q <= budget {
                    q
                } else {
                    budget
                };
                proof {
                    assert((q as int) == round_div(rv[i as int].1 * 255, sum_weights(rv)));
                    assert((wq as int) == min2(
                        round_div(rv[i as int].1 * 255, sum_weights(rv)),
                        255 - norm_running(rv, i as int),
                    ));
                    assert((wq as int) == norm_at(rv, i as int));
                    assert(0 <= norm_at(rv, i as int) <= 255) by {
                        assert(norm_at(rv, i as int) == norm_running(rv, i as int + 1)
                            - norm_running(rv, i as int));
                    }
                }
                wq as u8
            };
            proof {
                if i == n - 1 {
                    assert((w as int) == norm_at(rv, i as int));
                }
                assert(norm_ids(rv)[i as int] == rv[i as int].0);
                assert(rv[i as int] == (r@[i as int].0, r@[i as int].1 as int));
                assert(norm_weights(rv)[i as int] == norm_at(rv, i as int));
                assert(norm_running(rv, i as int + 1) == norm_running(rv, i as int) + norm_at(
                    rv,
                    i as int,
                ));
                lemma_norm_running_bounds(rv, i as int + 1);
            }
            idv.push(id);
            wv.push(w);
            running = running + w as u32;
        } else {
            proof {
                assert(norm_ids(rv)[i as int] == 0u8);
                assert(norm_weights(rv)[i as int] == 0);
                if i == rv.len() {
                    assert(norm_running(rv, rv.len() as int) == 255) by {
                        assert(norm_running(rv, rv.len() as int) == norm_running(
                            rv,
                            rv.len() - 1,
                        ) + (255 - norm_running(rv, rv.len() - 1)));
                    }
                }
            }
            idv.push(0);
            wv.push(0);
        }
        i = i + 1;
    }
    let ids4: [u8; 4] = [idv[0], idv[1], idv[2], idv[3]];
    let ws4: [u8; 4] = [wv[0], wv[1], wv[2], wv[3]];
    proof {
        assert(ids4@ =~= norm_ids(rv));
        assert forall|j: int| 0 <= j < 4 implies (#[trigger] ws4@[j] as int) == norm_weights(
            rv,
        )[j] by {
            assert(ws4@[j] == wv@[j]);
        }
    }
    (ids4, ws4)
}

/// Applies the minimum-weight filter: zeroes weights below the
/// threshold and renormalizes the survivors back to a sum of exactly
/// 255; when everything is filtered away the first slot takes the full
/// weight. The ids are left as they are.
#[verifier::loop_isolation(false)]
#[verifier::rlimit(60)]
pub fn filter_low_weights(ids: [u8; 4], ws: [u8; 4], min_weight: u8) -> (out: ([u8; 4], [u8; 4]))
    ensures
        out.0 == ids,
        forall|i: int| 0 <= i < 4 ==> (#[trigger] out.1@[i] as int) == filtered_weights(
            w4(ws),
            min_weight as int,
        )[i],
{
    let z: [u8; 4] = [
        if ws[0] < min_weight {
            0
        } else {
            ws[0]
        },
        if ws[1] < min_weight {
            0
        } else {
            ws[1]
        },
        if ws[2] < min_weight {
            0
        } else {
            ws[2]
        },
        if ws[3] < min_weight {
            0
        } else {
            ws[3]
        },
    ];
    let ghost zz = zeroed_weights(w4(ws), min_weight as int);
    proof {
        assert(w4(ws)[0] == ws[0] as int && w4(ws)[1] == ws[1] as int && w4(ws)[2] == ws[2] as int
            && w4(ws)[3] == ws[3] as int);
        assert((z[0] as int) == zz[0] && (z[1] as int) == zz[1] && (z[2] as int) == zz[2] && (z[3]
            as int) == zz[3]);
    }
    let zsum: u32 = z[0] as u32 + z[1] as u32 + z[2] as u32 + z[3] as u32;
    if zsum == 0 {
        let out_ws: [u8; 4] = [255, 0, 0, 0];
        proof {
            assert(seq4_sum(zz) == 0);
            assert(filtered_weights(w4(ws), min_weight as int) =~= seq![255int, 0, 0, 0]);
        }
        (ids, out_ws)
    } else {
        proof {
            assert(seq4_sum(zz) == zsum as int);
        }
        let last_nz: usize = if z[3] > 0 {
            3
        } else if z[2] > 0 {
            2
        } else if z[1] > 0 {
            1
        } else {
            0
        };
        proof {
            assert(last_nz as int == last_nonzero(zz));
        }
        let mut wv: Vec<u8> = Vec::new();
        let mut running: u32 = 0;
        let mut i: usize = 0;
        while i < 4
            invariant
                i <= 4,
                wv@.len() == i,
                zsum > 0,
                (zsum as int) == seq4_sum(zz),
                last_nz as int == last_nonzero(zz),
                (z[0] as int) == zz[0] && (z[1] as int) == zz[1] && (z[2] as int) == zz[2] && (z[3]
                    as int) == zz[3],
                forall|j: int| 0 <= j < i ==> (#[trigger] wv@[j] as int) == filter_at(zz, j),
                (running as int) == filter_running(zz, i as int),
                running <= 255,
            decreases 4 - i,
        {
            proof {
                lemma_filter_running_bounds(zz, i as int);
                lemma_filter_running_bounds(zz, i as int + 1);
                assert(filter_running(zz, i as int + 1) == filter_running(zz, i as int)
                    + filter_at(zz, i as int));
            }
            let zi = z[i];
            let w: u8 = if zi == 0 {
                0
            } else if i == last_nz {
                (255 - running) as u8
            } else {
                let a: u32 = zi as u32 * 255;
                let q: u32 = (2 * a + zsum) / (2 * zsum);
                let budget: u32 = 255 - running;
                let wq: u32 = if q <= budget {
                    q
                } else {
                    budget
                };
                proof {
                    assert((q as int) == round_div(zz[i as int] * 255, seq4_sum(zz)));
                    assert((wq as int) == filter_at(zz, i as int));
                }
                wq as u8
            };
            proof {
                assert((w as int) == filter_at(zz, i as int));
            }
            wv.push(w);
            running = running + w as u32;
            i = i + 1;
        }
        let out_ws: [u8; 4] = [wv[0], wv[1], wv[2], wv[3]];
        proof {
            assert forall|j: int| 0 <= j < 4 implies (#[trigger] out_ws@[j] as int)
                == filtered_weights(w4(ws), min_weight as int)[j] by {
                assert(out_ws@[j] == wv@[j]);
                assert(filtered_weights(w4(ws), min_weight as int)[j] == filter_at(zz, j));
            }
        }
        (ids, out_ws)
    }
}

/// Computes the material blend for one vertex.
///
/// Samples the eight corners of the cell holding the vertex, resolving
/// density and material through the chunk's own grids and the neighbor
/// caches; corners that resolve in neither are excluded. Interior
/// corners contribute their material, weighted by density; the
/// contributions are merged per material, ranked, cut to four,
/// normalized to a weight sum of exactly 255 and filtered against the
/// minimum weight. When no corner contributes — the vertex sits on a
/// fully exterior cell — the result falls back to the single material
/// of the nearest corner (or 0 when even that is unresolved).
///
/// Every returned value carries weights that sum to exactly 255.
pub fn compute_vertex_material(
    position: GridPoint,
    materials: &MaterialField,
    density: &DensityField,
    material_neighbors: Option<&NeighborFields<u8>>,
    density_neighbors: Option<&NeighborFields<i32>>,
    config: &BlendConfig,
) -> (r: VertexMaterialData)
    requires
        position.wf(),
        materials.wf(),
        density.wf(),
        config.wf(),
        match material_neighbors {
            Some(n) => n.wf(),
            None => true,
        },
        match density_neighbors {
            Some(n) => n.wf() && den_in_range(*n),
            None => true,
        },
    ensures
        r.ids@ == blend_ids(
            position,
            materials,
            density,
            material_neighbors,
            density_neighbors,
            *config,
        ),
        forall|i: int|
            0 <= i < 4 ==> (#[trigger] r.weights@[i] as int) == blend_weights(
                position,
                materials,
                density,
                material_neighbors,
                density_neighbors,
                *config,
            )[i],
        r.wf(),
{
    let ghost c = corner_contribs(
        position.cell_x as int,
        position.cell_y as int,
        position.cell_z as int,
        materials,
        density,
        material_neighbors,
        density_neighbors,
        *config,
    );
    let contribs = collect_contribs(
        position.cell_x,
        position.cell_y,
        position.cell_z,
        materials,
        density,
        material_neighbors,
        density_neighbors,
        config,
    );
    if contribs.len() == 0 {
        let nx = position.cell_x + if position.frac_x >= 512 {
            1
        } else {
            0
        };
        let ny = position.cell_y + if position.frac_y >= 512 {
            1
        } else {
            0
        };
        let nz = position.cell_z + if position.frac_z >= 512 {
            1
        } else {
            0
        };
        let mat = match resolve_material(materials, material_neighbors, nx, ny, nz) {
            Some(m) => m,
            None => 0,
        };
        let r = VertexMaterialData::single(mat);
        proof {
            assert(c.len() == 0);
            assert(mat == fallback_material(position, materials, material_neighbors));
        }
        r
    } else {
        proof {
            lemma_contribs_bounded(
                position.cell_x as int,
                position.cell_y as int,
                position.cell_z as int,
                materials,
                density,
                material_neighbors,
                density_neighbors,
                *config,
                8,
            );
            assert(all_pos(c));
            assert forall|j: int| 0 <= j < contribs@.len() implies 0 < (
            #[trigger] contribs@[j].1 as int) <= max_corner_weight() by {
                assert(c[j] == (contribs@[j].0, contribs@[j].1 as int));
            }
        }
        let agg = merge_contribs(&contribs);
        proof {
            lemma_merged_props(c);
            assert(all_bounded(merged_of(c))) by {
                assert forall|j: int| 0 <= j < merged_of(c).len() implies #[trigger] merged_of(
                    c,
                )[j].1 <= 8 * max_corner_weight() by {
                    lemma_total_weight_bound(c, distinct_ids(c)[j]);
                }
            }
            lemma_sort_props(merged_of(c));
        }
        let mut sorted = sort_by_rank(agg);
        let ghost sv = sort_pairs(merged_of(c));
        if sorted.len() > 4 {
            sorted.truncate(4);
            proof {
                assert(pairs_view(sorted@) =~= sv.take(4));
                assert(pairs_view(sorted@) == retained_pairs(c));
            }
        } else {
            proof {
                assert(pairs_view(sorted@) == retained_pairs(c));
            }
        }
        let ghost rp = retained_pairs(c);
        proof {
            assert(1 <= rp.len() <= 4);
            assert(all_pos(rp) && all_bounded(rp)) by {
                if sv.len() > 4 {
                    assert forall|j: int| 0 <= j < rp.len() implies 0 < #[trigger] rp[j].1 <= 8
                        * max_corner_weight() by {
                        assert(rp[j] == sv[j]);
                    }
                }
            }
        }
        let (ids4, ws4) = normalize_retained(&sorted);
        let filtered = filter_low_weights(ids4, ws4, config.min_weight);
        let ghost fw = filtered_weights(norm_weights(rp), config.min_weight as int);
        proof {
            assert(w4(ws4) =~= norm_weights(rp));
            lemma_sum_weights_pos(rp);
            lemma_norm_weights_sum(rp);
            lemma_filtered_weights_sum(norm_weights(rp), config.min_weight as int);
        }
        let r = VertexMaterialData::raw(filtered.0, filtered.1);
        proof {
            assert(weight_sum(filtered.1) == fw[0] + fw[1] + fw[2] + fw[3]);
            assert(r.ids@ == norm_ids(rp));
        }
        r
    }
}

/// The packed form of a single-material blend: the id in the low byte
/// of the first word, the full weight 255 in the low byte of the
/// second.
pub fn pack_single(material_id: u8) -> (r: (u32, u32))
    ensures
        r.0 == material_id as u32,
        r.1 == 255u32,
{
    (material_id as u32, 255)
}

/// Computes packed material attributes for every vertex of a mesh.
///
/// Returns one packed id word and one packed weight word per vertex,
/// in vertex order.
pub fn compute_vertex_materials(
    positions: &Vec<GridPoint>,
    density: &DensityField,
    materials: &MaterialField,
    density_neighbors: Option<&NeighborFields<i32>>,
    material_neighbors: Option<&NeighborFields<u8>>,
    config: &BlendConfig,
) -> (r: (Vec<u32>, Vec<u32>))
    requires
        materials.wf(),
        density.wf(),
        config.wf(),
        forall|k: int| 0 <= k < positions@.len() ==> (#[trigger] positions@[k]).wf(),
        match material_neighbors {
            Some(n) => n.wf(),
            None => true,
        },
        match density_neighbors {
            Some(n) => n.wf() && den_in_range(*n),
            None => true,
        },
    ensures
        r.0@.len() == positions@.len(),
        r.1@.len() == positions@.len(),
        forall|k: int|
            0 <= k < positions@.len() ==> (#[trigger] r.0@[k] as int) == packed_of(
                blend_ids(
                    positions@[k],
                    materials,
                    density,
                    material_neighbors,
                    density_neighbors,
                    *config,
                ),
            ),
        forall|k: int|
            0 <= k < positions@.len() ==> (#[trigger] r.1@[k] as int) == packed_weights_of(
                blend_weights(
                    positions@[k],
                    materials,
                    density,
                    material_neighbors,
                    density_neighbors,
                    *config,
                ),
            ),
{
    let mut ids: Vec<u32> = Vec::new();
    let mut weights: Vec<u32> = Vec::new();
    let n = positions.len();
    let mut k: usize = 0;
    #[verifier::loop_isolation(false)]
    while k < n
        invariant
            k <= n,
            ids@.len() == k,
            weights@.len() == k,
            forall|j: int|
                0 <= j < k ==> (#[trigger] ids@[j] as int) == packed_of(
                    blend_ids(
                        positions@[j],
                        materials,
                        density,
                        material_neighbors,
                        density_neighbors,
                        *config,
                    ),
                ),
            forall|j: int|
                0 <= j < k ==> (#[trigger] weights@[j] as int) == packed_weights_of(
                    blend_weights(
                        positions@[j],
                        materials,
                        density,
                        material_neighbors,
                        density_neighbors,
                        *config,
                    ),
                ),
        decreases n - k,
    {
        let vm = compute_vertex_material(
            positions[k],
            materials,
            density,
            material_neighbors,
            density_neighbors,
            config,
        );
        let pi = vm.pack_ids();
        let pw = vm.pack_weights();
        proof {
            let bw = blend_weights(
                positions@[k as int],
                materials,
                density,
                material_neighbors,
                density_neighbors,
                *config,
            );
            assert((pw as int) == packed_weights_of(bw)) by {
                assert((vm.weights@[0] as int) == bw[0] && (vm.weights@[1] as int) == bw[1] && (
                vm.weights@[2] as int) == bw[2] && (vm.weights@[3] as int) == bw[3]);
            }
        }
        ids.push(pi);
        weights.push(pw);
        k = k + 1;
    }
    (ids, weights)
}

/// Four bytes of a blend packed little-endian into one attribute word.
pub open spec fn packed_of(s: Seq<u8>) -> int {
    s[0] + s[1] * 0x100 + s[2] * 0x1_0000 + s[3] * 0x100_0000
}

/// Four weight slots packed little-endian into one attribute word.
pub open spec fn packed_weights_of(s: Seq<int>) -> int {
    s[0] + s[1] * 0x100 + s[2] * 0x1_0000 + s[3] * 0x100_0000
}

/// Law: a cell with no interior corner never yields a zero-weight
/// blend. When every corner's density either resolves to a
/// non-negative (exterior) value or does not resolve at all, no corner
/// contributes, and the blend is the single-material fallback: the
/// nearest corner's material at full weight.
pub proof fn lemma_exterior_cell_falls_back(
    p: GridPoint,
    m: &MaterialField,
    den: &DensityField,
    nm: Option<&NeighborFields<u8>>,
    nd: Option<&NeighborFields<i32>>,
    cfg: BlendConfig,
)
    requires
        forall|i: int|
            0 <= i < 8 ==> {
                let (ox, oy, oz) = #[trigger] corner_offset(i);
                match resolved_den(den, nd, p.cell_x + ox, p.cell_y + oy, p.cell_z + oz) {
                    Some(d) => d >= 0,
                    None => true,
                }
            },
    ensures
        corner_contribs(p.cell_x as int, p.cell_y as int, p.cell_z as int, m, den, nm, nd, cfg)
            == Seq::<(u8, int)>::empty(),
        blend_ids(p, m, den, nm, nd, cfg) == seq![
            fallback_material(p, m, nm),
            0u8,
            0u8,
            0u8,
        ],
        blend_weights(p, m, den, nm, nd, cfg) == seq![255int, 0, 0, 0],
{
    let cx = p.cell_x as int;
    let cy = p.cell_y as int;
    let cz = p.cell_z as int;
    assert forall|i: int| 0 <= i <= 8 implies #[trigger] contribs_prefix(
        cx,
        cy,
        cz,
        m,
        den,
        nm,
        nd,
        cfg,
        i,
    ).len() == 0 by {
        lemma_exterior_prefix_empty(p, m, den, nm, nd, cfg, i);
    }
    assert(corner_contribs(cx, cy, cz, m, den, nm, nd, cfg) =~= Seq::<(u8, int)>::empty());
}

/// No prefix of corners contributes when every corner is exterior or
/// unresolved.
proof fn lemma_exterior_prefix_empty(
    p: GridPoint,
    m: &MaterialField,
    den: &DensityField,
    nm: Option<&NeighborFields<u8>>,
    nd: Option<&NeighborFields<i32>>,
    cfg: BlendConfig,
    i: int,
)
    requires
        0 <= i <= 8,
        forall|k: int|
            0 <= k < 8 ==> {
                let (ox, oy, oz) = #[trigger] corner_offset(k);
                match resolved_den(den, nd, p.cell_x + ox, p.cell_y + oy, p.cell_z + oz) {
                    Some(d) => d >= 0,
                    None => true,
                }
            },
    ensures
        contribs_prefix(
            p.cell_x as int,
            p.cell_y as int,
            p.cell_z as int,
            m,
            den,
            nm,
            nd,
            cfg,
            i,
        ).len() == 0,
    decreases i,
{
    if i > 0 {
        lemma_exterior_prefix_empty(p, m, den, nm, nd, cfg, i - 1);
        let (ox, oy, oz) = corner_offset(i - 1);
        match resolved_den(den, nd, p.cell_x as int + ox, p.cell_y as int + oy, p.cell_z as int
            + oz) {
            Some(d) => {
                assert(weight_of_density(d as int, cfg) == 0);
            },
            None => {},
        }
    }
}

/// Removing one entry removes exactly its contribution from a
/// material's summed weight.
proof fn lemma_total_weight_remove(s: Seq<(u8, int)>, id: u8, k: int)
    requires
        0 <= k < s.len(),
    ensures
        total_weight(s.remove(k), id) == total_weight(s, id) - (if s[k].0 == id {
            s[k].1
        } else {
            0
        }),
    decreases s.len(),
{
    if k == s.len() - 1 {
        assert(s.remove(k) =~= s.drop_last());
    } else {
        assert(s.remove(k).drop_last() =~= s.drop_last().remove(k));
        assert(s.remove(k).last() == s.last());
        lemma_total_weight_remove(s.drop_last(), id, k);
    }
}

/// A material's summed weight depends only on which contributions
/// occur, not on their order.
proof fn lemma_total_weight_permuted(s1: Seq<(u8, int)>, s2: Seq<(u8, int)>, id: u8)
    requires
        s1.to_multiset() == s2.to_multiset(),
    ensures
        total_weight(s1, id) == total_weight(s2, id),
    decreases s1.len(),
{
    broadcast use vstd::seq_lib::group_to_multiset_ensures;

    assert(s1.to_multiset().len() == s1.len());
    assert(s2.to_multiset().len() == s2.len());
    if s1.len() == 0 {
    } else {
        let e = s1.last();
        assert(s1[s1.len() - 1] == e);
        assert(s1.contains(e));
        assert(s2.to_multiset().count(e) > 0);
        assert(s2.contains(e));
        let k = choose|k: int| 0 <= k < s2.len() && s2[k] == e;
        assert(s1.drop_last() =~= s1.remove(s1.len() - 1));
        assert(s1.remove(s1.len() - 1).to_multiset() == s1.to_multiset().remove(e));
        assert(s2.remove(k).to_multiset() == s2.to_multiset().remove(e));
        lemma_total_weight_permuted(s1.drop_last(), s2.remove(k), id);
        lemma_total_weight_remove(s2, id, k);
    }
}

/// A material id is among the distinct ids exactly when some
/// contribution carries it.
proof fn lemma_distinct_ids_contains(s: Seq<(u8, int)>, id: u8)
    ensures
        distinct_ids(s).contains(id) <==> exists|j: int| 0 <= j < s.len() && #[trigger] s[j].0
            == id,
    decreases s.len(),
{
    if s.len() > 0 {
        lemma_distinct_ids_contains(s.drop_last(), id);
        let r = distinct_ids(s.drop_last());
        if distinct_ids(s).contains(id) {
            if id == s.last().0 {
                assert(s[s.len() - 1].0 == id);
            } else {
                assert(r.contains(id));
                let j = choose|j: int| 0 <= j < s.drop_last().len() && s.drop_last()[j].0 == id;
                assert(s[j].0 == id);
            }
        }
        if exists|j: int| 0 <= j < s.len() && #[trigger] s[j].0 == id {
            let j = choose|j: int| 0 <= j < s.len() && #[trigger] s[j].0 == id;
            if j == s.len() - 1 {
                if r.contains(id) {
                } else {
                    assert(distinct_ids(s)[r.len() as int] == id);
                }
            } else {
                assert(s.drop_last()[j].0 == id);
                assert(r.contains(id));
                if !r.contains(s.last().0) {
                    let m = choose|m: int| 0 <= m < r.len() && r[m] == id;
                    assert(distinct_ids(s)[m] == id);
                }
            }
        }
    }
}

/// True when a pair sequence is sorted by the blend's ranking: no
/// later entry outranks an earlier one.
pub open spec fn rank_sorted(s: Seq<(u8, int)>) -> bool {
    forall|i: int, j: int| 0 <= i < j < s.len() ==> !ranks_before(#[trigger] s[j], #[trigger] s[i])
}

/// Inserting a pair adds exactly that pair to the sequence's
/// contents.
proof fn lemma_insert_pair_multiset(s: Seq<(u8, int)>, p: (u8, int))
    ensures
        insert_pair(s, p).to_multiset() == s.to_multiset().insert(p),
    decreases s.len(),
{
    broadcast use vstd::seq_lib::group_to_multiset_ensures;

    if s.len() == 0 {
        assert(insert_pair(s, p) =~= Seq::<(u8, int)>::empty().push(p));
        assert(s.to_multiset() =~= Multiset::<(u8, int)>::empty()) by {
            assert(s.to_multiset().len() == 0);
        }
        assert(insert_pair(s, p).to_multiset() =~= s.to_multiset().insert(p));
    } else if ranks_before(p, s[0]) {
        assert(seq![p] + s =~= s.insert(0, p));
        vstd::seq_lib::to_multiset_insert(s, 0, p);
    } else {
        let d = s.drop_first();
        lemma_insert_pair_multiset(d, p);
        let t = insert_pair(d, p);
        assert(seq![s[0]] + t =~= t.insert(0, s[0]));
        vstd::seq_lib::to_multiset_insert(t, 0, s[0]);
        assert(s =~= d.insert(0, s[0]));
        vstd::seq_lib::to_multiset_insert(d, 0, s[0]);
        assert(t.to_multiset().insert(s[0]) =~= d.to_multiset().insert(s[0]).insert(p));
    }
}

/// Inserting a pair into a rank-sorted sequence keeps it rank-sorted.
proof fn lemma_insert_pair_sorted(s: Seq<(u8, int)>, p: (u8, int))
    requires
        rank_sorted(s),
    ensures
        rank_sorted(insert_pair(s, p)),
    decreases s.len(),
{
    broadcast use vstd::seq_lib::group_to_multiset_ensures;

    if s.len() == 0 {
    } else if ranks_before(p, s[0]) {
        let r = seq![p] + s;
        assert forall|i: int, j: int| 0 <= i < j < r.len() implies !ranks_before(
            #[trigger] r[j],
            #[trigger] r[i],
        ) by {
            if i == 0 {
                assert(r[j] == s[j - 1]);
                if j > 1 {
                    assert(!ranks_before(s[j - 1], s[0]));
                }
            } else {
                assert(r[i] == s[i - 1] && r[j] == s[j - 1]);
            }
        }
    } else {
        let d = s.drop_first();
        assert(rank_sorted(d)) by {
            assert forall|i: int, j: int| 0 <= i < j < d.len() implies !ranks_before(
                #[trigger] d[j],
                #[trigger] d[i],
            ) by {
                assert(d[j] == s[j + 1] && d[i] == s[i + 1]);
            }
        }
        lemma_insert_pair_sorted(d, p);
        lemma_insert_pair_multiset(d, p);
        let t = insert_pair(d, p);
        let r = seq![s[0]] + t;
        assert forall|i: int, j: int| 0 <= i < j < r.len() implies !ranks_before(
            #[trigger] r[j],
            #[trigger] r[i],
        ) by {
            if i == 0 {
                let x = t[j - 1];
                assert(t.contains(x));
                assert(t.to_multiset().count(x) > 0);
                if x != p {
                    assert(d.to_multiset().count(x) > 0);
                    assert(d.contains(x));
                    let m = choose|m: int| 0 <= m < d.len() && d[m] == x;
                    assert(d[m] == s[m + 1]);
                    assert(!ranks_before(s[m + 1], s[0]));
                }
            } else {
                assert(r[i] == t[i - 1] && r[j] == t[j - 1]);
            }
        }
    }
}

/// Sorting by rank yields a rank-sorted sequence with the same
/// contents.
pub proof fn lemma_sort_pairs_sorted(s: Seq<(u8, int)>)
    ensures
        rank_sorted(sort_pairs(s)),
        sort_pairs(s).to_multiset() == s.to_multiset(),
    decreases s.len(),
{
    broadcast use vstd::seq_lib::group_to_multiset_ensures;

    if s.len() == 0 {
    } else {
        lemma_sort_pairs_sorted(s.drop_last());
        lemma_insert_pair_sorted(sort_pairs(s.drop_last()), s.last());
        lemma_insert_pair_multiset(sort_pairs(s.drop_last()), s.last());
        assert(s.drop_last().push(s.last()) =~= s);
        assert(s.drop_last().push(s.last()).to_multiset() == s.drop_last().to_multiset().insert(
            s.last(),
        ));
    }
}

/// Two rank-sorted sequences with the same contents are the same
/// sequence: the ranking leaves no freedom, because ties in weight are
/// broken by the material id and equal id-weight pairs are identical.
pub proof fn lemma_rank_sorted_unique(s1: Seq<(u8, int)>, s2: Seq<(u8, int)>)
    requires
        rank_sorted(s1),
        rank_sorted(s2),
        s1.to_multiset() == s2.to_multiset(),
    ensures
        s1 == s2,
    decreases s1.len(),
{
    broadcast use vstd::seq_lib::group_to_multiset_ensures;

    assert(s1.to_multiset().len() == s1.len());
    assert(s2.to_multiset().len() == s2.len());
    if s1.len() == 0 {
        assert(s1 =~= s2);
    } else {
        assert(s1.contains(s1[0]));
        assert(s2.to_multiset().count(s1[0]) > 0);
        assert(s2.contains(s1[0]));
        let k = choose|k: int| 0 <= k < s2.len() && s2[k] == s1[0];
        assert(s1.to_multiset().count(s2[0]) > 0);
        assert(s1.contains(s2[0]));
        let m = choose|m: int| 0 <= m < s1.len() && s1[m] == s2[0];
        if k > 0 {
            assert(!ranks_before(s2[k], s2[0]));
        }
        if m > 0 {
            assert(!ranks_before(s1[m], s1[0]));
        }
        assert(s1[0] == s2[0]);
        let d1 = s1.drop_first();
        let d2 = s2.drop_first();
        assert(d1 =~= s1.remove(0));
        assert(d2 =~= s2.remove(0));
        assert(s1.remove(0).to_multiset() == s1.to_multiset().remove(s1[0]));
        assert(s2.remove(0).to_multiset() == s2.to_multiset().remove(s2[0]));
        assert(rank_sorted(d1)) by {
            assert forall|i: int, j: int| 0 <= i < j < d1.len() implies !ranks_before(
                #[trigger] d1[j],
                #[trigger] d1[i],
            ) by {
                assert(d1[j] == s1[j + 1] && d1[i] == s1[i + 1]);
            }
        }
        assert(rank_sorted(d2)) by {
            assert forall|i: int, j: int| 0 <= i < j < d2.len() implies !ranks_before(
                #[trigger] d2[j],
                #[trigger] d2[i],
            ) by {
                assert(d2[j] == s2[j + 1] && d2[i] == s2[i + 1]);
            }
        }
        lemma_rank_sorted_unique(d1, d2);
        assert forall|i: int| 0 <= i < s1.len() implies s1[i] == s2[i] by {
            if i > 0 {
                assert(d1[i - 1] == s1[i]);
                assert(d2[i - 1] == s2[i]);
                assert(d1[i - 1] == d2[i - 1]);
            }
        }
        assert(s1 =~= s2);
    }
}

/// A pair is among the merged contributions exactly when its material
/// occurs and its weight is that material's summed weight.
proof fn lemma_merged_contains(s: Seq<(u8, int)>, p: (u8, int))
    ensures
        merged_of(s).contains(p) <==> ((exists|j: int|
            0 <= j < s.len() && #[trigger] s[j].0 == p.0) && p.1 == total_weight(s, p.0)),
{
    lemma_distinct_ids_contains(s, p.0);
    if merged_of(s).contains(p) {
        let j = choose|j: int| 0 <= j < merged_of(s).len() && merged_of(s)[j] == p;
        assert(distinct_ids(s).contains(distinct_ids(s)[j]));
    }
    if (exists|j: int| 0 <= j < s.len() && #[trigger] s[j].0 == p.0) && p.1 == total_weight(
        s,
        p.0,
    ) {
        let m = choose|m: int| 0 <= m < distinct_ids(s).len() && distinct_ids(s)[m] == p.0;
        assert(merged_of(s)[m] == p);
    }
}

/// The merged contributions have no duplicate pairs.
proof fn lemma_merged_no_duplicates(s: Seq<(u8, int)>)
    ensures
        merged_of(s).no_duplicates(),
{
    lemma_distinct_no_dup(s);
    assert forall|i: int, j: int|
        0 <= i < j < merged_of(s).len() implies #[trigger] merged_of(s)[i]
        != #[trigger] merged_of(s)[j] by {
        assert(distinct_ids(s)[i] != distinct_ids(s)[j]);
    }
}

/// Merging depends only on which contributions occur, not on their
/// order: reordering the corner contributions leaves the same merged
/// pairs.
proof fn lemma_merged_permuted(s1: Seq<(u8, int)>, s2: Seq<(u8, int)>)
    requires
        s1.to_multiset() == s2.to_multiset(),
    ensures
        merged_of(s1).to_multiset() == merged_of(s2).to_multiset(),
{
    broadcast use vstd::seq_lib::group_to_multiset_ensures;
    broadcast use vstd::multiset::group_multiset_axioms;

    lemma_merged_no_duplicates(s1);
    lemma_merged_no_duplicates(s2);
    merged_of(s1).lemma_multiset_has_no_duplicates();
    merged_of(s2).lemma_multiset_has_no_duplicates();
    assert forall|p: (u8, int)| true implies #[trigger] merged_of(s1).to_multiset().count(p)
        == merged_of(s2).to_multiset().count(p) by {
        lemma_merged_contains(s1, p);
        lemma_merged_contains(s2, p);
        lemma_total_weight_permuted(s1, s2, p.0);
        assert((exists|j: int| 0 <= j < s1.len() && #[trigger] s1[j].0 == p.0) <==> (exists|
            j: int,
        | 0 <= j < s2.len() && #[trigger] s2[j].0 == p.0)) by {
            if exists|j: int| 0 <= j < s1.len() && #[trigger] s1[j].0 == p.0 {
                let j = choose|j: int| 0 <= j < s1.len() && #[trigger] s1[j].0 == p.0;
                assert(s1.contains(s1[j]));
                assert(s2.to_multiset().count(s1[j]) > 0);
                assert(s2.contains(s1[j]));
                let k = choose|k: int| 0 <= k < s2.len() && s2[k] == s1[j];
                assert(s2[k].0 == p.0);
            }
            if exists|j: int| 0 <= j < s2.len() && #[trigger] s2[j].0 == p.0 {
                let j = choose|j: int| 0 <= j < s2.len() && #[trigger] s2[j].0 == p.0;
                assert(s2.contains(s2[j]));
                assert(s1.to_multiset().count(s2[j]) > 0);
                assert(s1.contains(s2[j]));
                let k = choose|k: int| 0 <= k < s1.len() && s1[k] == s2[j];
                assert(s1[k].0 == p.0);
            }
        }
        if merged_of(s1).contains(p) {
            assert(merged_of(s1).to_multiset().count(p) == 1);
            assert(merged_of(s2).contains(p));
            assert(merged_of(s2).to_multiset().count(p) == 1);
        } else {
            assert(merged_of(s1).to_multiset().count(p) == 0);
            assert(!merged_of(s2).contains(p));
            assert(merged_of(s2).to_multiset().count(p) == 0);
        }
    }
    assert(merged_of(s1).to_multiset() =~= merged_of(s2).to_multiset());
}

/// Law: the blend is deterministic in the contributions as a
/// collection. Reordering the corner contributions — any enumeration
/// with the same materials and weights — merges, ranks and cuts to the
/// very same retained pairs: per-material sums ignore order, the
/// ranking is sorted, and ties in weight are broken by ascending
/// material id, which leaves the ranking no freedom.
pub proof fn lemma_blend_order_independent(c1: Seq<(u8, int)>, c2: Seq<(u8, int)>)
    requires
        c1.to_multiset() == c2.to_multiset(),
    ensures
        retained_pairs(c1) == retained_pairs(c2),
{
    lemma_merged_permuted(c1, c2);
    lemma_sort_pairs_sorted(merged_of(c1));
    lemma_sort_pairs_sorted(merged_of(c2));
    lemma_rank_sorted_unique(sort_pairs(merged_of(c1)), sort_pairs(merged_of(c2)));
}

} // verus!
