//! Per-vertex material blending data.

use vstd::prelude::*;

verus! {

/// Material blending data for a single vertex.
///
/// Supports up to 4 materials per vertex with blend weights. Four is the
/// natural maximum for cubic voxels, where a vertex can touch at most 8
/// voxels (corners); in practice surface vertices touch 2-4 materials at
/// boundaries.
///
/// A well-formed value carries weights that sum to exactly 255; unused
/// slots carry id 0 and weight 0.
#[derive(Clone, Copy, Debug, PartialEq, Eq)]
pub struct VertexMaterialData {
    /// Up to 4 material indices into the texture palette.
    /// Unused slots should be 0.
    pub ids: [u8; 4],

    /// Blend weights for each material.
    /// Sum to 255 for correct blending.
    pub weights: [u8; 4],
}

/// The sum of the four blend weights of a weight array.
pub open spec fn weight_sum(w: [u8; 4]) -> int {
    w[0] + w[1] + w[2] + w[3]
}

/// Four bytes packed little-endian into one 32-bit value:
/// byte 0 is the lowest byte of the result.
pub open spec fn pack_bytes(b: [u8; 4]) -> int {
    b[0] + b[1] * 0x100 + b[2] * 0x1_0000 + b[3] * 0x100_0000
}

/// Byte `i` (0 = lowest) of a packed 32-bit value.
pub open spec fn byte_of(v: int, i: int) -> int {
    (v / vstd::arithmetic::power::pow(0x100, i as nat)) % 0x100
}

impl VertexMaterialData {
    /// True when the weights sum to 255.
    pub open spec fn wf(self) -> bool {
        weight_sum(self.weights) == 255
    }

    /// Create vertex data for a single material with full weight.
    pub fn single(material_id: u8) -> (r: Self)
        ensures
            r.ids@ == seq![material_id, 0u8, 0u8, 0u8],
            r.weights@ == seq![255u8, 0u8, 0u8, 0u8],
            r.wf(),
    {
        let r = Self { ids: [material_id, 0, 0, 0], weights: [255, 0, 0, 0] };
        proof {
            assert(r.ids@ =~= seq![material_id, 0u8, 0u8, 0u8]);
            assert(r.weights@ =~= seq![255u8, 0u8, 0u8, 0u8]);
        }
        r
    }

    /// Create vertex data blending two materials at 50/50.
    ///
    /// The weight budget of 255 does not split evenly; the first
    /// material gets the extra point.
    pub fn blend2_half(id0: u8, id1: u8) -> (r: Self)
        ensures
            r.ids@ == seq![id0, id1, 0u8, 0u8],
            r.weights@ == seq![128u8, 127u8, 0u8, 0u8],
            r.wf(),
    {
        let r = Self { ids: [id0, id1, 0, 0], weights: [128, 127, 0, 0] };
        proof {
            assert(r.ids@ =~= seq![id0, id1, 0u8, 0u8]);
            assert(r.weights@ =~= seq![128u8, 127u8, 0u8, 0u8]);
        }
        r
    }

    /// Create vertex data with explicit ids and weights.
    ///
    /// The weights must already sum to 255; use the blending engine or
    /// the normalizing constructors when they do not.
    pub fn raw(ids: [u8; 4], weights: [u8; 4]) -> (r: Self)
        requires
            weight_sum(weights) == 255,
        ensures
            r.ids == ids,
            r.weights == weights,
            r.wf(),
    {
        Self { ids, weights }
    }

    /// True when every slot that carries blend weight holds a material
    /// id within a palette of `max_id + 1` materials. Unused slots may
    /// hold anything; only weighted slots reach the palette.
    pub open spec fn ids_within_spec(self, max_id: u8) -> bool {
        forall|i: int| 0 <= i < 4 && self.weights[i] > 0 ==> #[trigger] self.ids[i] <= max_id
    }

    /// Checks that every weighted slot stays within the palette, for
    /// callers that validate vertex data against a palette's material
    /// count before building a mesh.
    pub fn ids_within_palette(&self, max_id: u8) -> (r: bool)
        ensures
            r == self.ids_within_spec(max_id),
    {
        let mut ok = true;
        if self.weights[0] > 0 && self.ids[0] > max_id {
            ok = false;
        }
        if self.weights[1] > 0 && self.ids[1] > max_id {
            ok = false;
        }
        if self.weights[2] > 0 && self.ids[2] > max_id {
            ok = false;
        }
        if self.weights[3] > 0 && self.ids[3] > max_id {
            ok = false;
        }
        ok
    }

    /// Pack the material ids into a `u32` for the vertex attribute
    /// (little-endian byte order).
    pub fn pack_ids(&self) -> (r: u32)
        ensures
            r == pack_bytes(self.ids),
    {
        self.ids[0] as u32 + self.ids[1] as u32 * 0x100 + self.ids[2] as u32 * 0x1_0000
            + self.ids[3] as u32 * 0x100_0000
    }

    /// Pack the blend weights into a `u32` for the vertex attribute
    /// (little-endian byte order).
    pub fn pack_weights(&self) -> (r: u32)
        ensures
            r == pack_bytes(self.weights),
    {
        self.weights[0] as u32 + self.weights[1] as u32 * 0x100 + self.weights[2] as u32
            * 0x1_0000 + self.weights[3] as u32 * 0x100_0000
    }
}

/// Recover the four bytes of a packed 32-bit value (little-endian).
pub fn unpack_bytes(v: u32) -> (r: [u8; 4])
    ensures
        forall|i: int| 0 <= i < 4 ==> #[trigger] r[i] == byte_of(v as int, i),
        pack_bytes(r) == v,
{
    let b0 = (v % 0x100) as u8;
    let b1 = ((v / 0x100) % 0x100) as u8;
    let b2 = ((v / 0x1_0000) % 0x100) as u8;
    let b3 = ((v / 0x100_0000) % 0x100) as u8;
    let r = [b0, b1, b2, b3];
    proof {
        lemma_pow_256();
        assert(r[0] == byte_of(v as int, 0));
        assert(r[1] == byte_of(v as int, 1));
        assert(r[2] == byte_of(v as int, 2));
        assert(r[3] == byte_of(v as int, 3));
        lemma_unpack_pack(v as int);
        assert(pack_bytes(r) == v);
    }
    r
}

/// The powers of 0x100 used by the byte extraction, spelled out so the
/// packing proofs can work with plain constants.
proof fn lemma_pow_256()
    ensures
        vstd::arithmetic::power::pow(0x100, 0) == 1,
        vstd::arithmetic::power::pow(0x100, 1) == 0x100,
        vstd::arithmetic::power::pow(0x100, 2) == 0x1_0000,
        vstd::arithmetic::power::pow(0x100, 3) == 0x100_0000,
{
    reveal_with_fuel(vstd::arithmetic::power::pow, 4);
}

/// Splitting a 32-bit value into its four little-endian bytes and
/// re-packing them gives the value back.
proof fn lemma_unpack_pack(v: int)
    requires
        0 <= v < 0x1_0000_0000,
    ensures
        byte_of(v, 0) + byte_of(v, 1) * 0x100 + byte_of(v, 2) * 0x1_0000 + byte_of(v, 3)
            * 0x100_0000 == v,
{
    lemma_pow_256();
    assert(byte_of(v, 0) == v % 0x100);
    assert(byte_of(v, 1) == (v / 0x100) % 0x100);
    assert(byte_of(v, 2) == (v / 0x1_0000) % 0x100);
    assert(byte_of(v, 3) == (v / 0x100_0000) % 0x100);
    assert((v % 0x100) + ((v / 0x100) % 0x100) * 0x100 + ((v / 0x1_0000) % 0x100) * 0x1_0000 + ((v
        / 0x100_0000) % 0x100) * 0x100_0000 == v) by (nonlinear_arith)
        requires
            0 <= v < 0x1_0000_0000,
    ;
}

/// Law: packing four bytes little-endian and unpacking them again gives
/// the bytes back, for ids and weights alike. This is the round-trip
/// guarantee behind the two packed `u32` vertex attributes.
pub proof fn lemma_pack_round_trip(b: [u8; 4])
    ensures
        forall|i: int| 0 <= i < 4 ==> #[trigger] byte_of(pack_bytes(b), i) == b[i],
{
    lemma_pow_256();
    let v = pack_bytes(b);
    assert(byte_of(v, 0) == b[0] && byte_of(v, 1) == b[1] && byte_of(v, 2) == b[2] && byte_of(
        v,
        3,
    ) == b[3]) by (nonlinear_arith)
        requires
            v == b[0] + b[1] * 0x100 + b[2] * 0x1_0000 + b[3] * 0x100_0000,
            0 <= b[0] < 0x100,
            0 <= b[1] < 0x100,
            0 <= b[2] < 0x100,
            0 <= b[3] < 0x100,
            byte_of(v, 0) == v % 0x100,
            byte_of(v, 1) == (v / 0x100) % 0x100,
            byte_of(v, 2) == (v / 0x1_0000) % 0x100,
            byte_of(v, 3) == (v / 0x100_0000) % 0x100,
    ;
}

} // verus!
