//! Terrain sampling and chunk meshing.
//!
//! Every function here is a pure function of the immutable noise field and
//! of absolute world coordinates, so chunks generated in any order — and a
//! chunk regenerated later — are identical, and laterally adjacent chunks
//! agree on their shared boundary.

use vstd::prelude::*;
use vstd::arithmetic::div_mod::{
    lemma_div_is_ordered, lemma_fundamental_div_mod, lemma_fundamental_div_mod_converse_div,
    lemma_fundamental_div_mod_converse_mod, lemma_hoist_over_denominator,
};
use crate::noise::{spec_lerp, spec_noise, lerp, NoiseGenerators, Q_LIMIT};
use crate::world_gen::{ChunkCoord, NOISE_AMP, NOISE_FREQ};

verus! {

/// Biome noise frequency, in thousandths per fixed-point unit (0.008).
pub const BIOME_FREQ: i64 = 8;

/// Height multiplier of the plains biome.
pub const PLAINS_SCALE: i64 = 2;

/// Height multiplier of the forest biome.
pub const FOREST_SCALE: i64 = 1;

/// Erosion-layer noise frequency (0.03).
pub const EROSION_FREQ: i64 = 30;

/// Per-vertex colour variation noise frequency (0.15).
pub const COLOR_FREQ: i64 = 150;

/// Vegetation placement noise frequency (0.14).
pub const TREE_FREQ: i64 = 140;

/// Largest magnitude a fixed-point world coordinate may have; every chunk
/// addressable by an `i32` chunk coordinate stays within it.
pub const WORLD_LIMIT: i64 = 300_000_000_000_000;

/// Terrain style at a coordinate, derived from biome noise on demand and
/// never stored.
#[derive(Clone, Copy, Debug, PartialEq, Eq, Structural)]
pub enum Biome {
    Plains,
    Forest,
}

/// Clamps `v` into `[lo, hi]`.
pub open spec fn spec_clamp(v: int, lo: int, hi: int) -> int {
    if v < lo {
        lo
    } else if v > hi {
        hi
    } else {
        v
    }
}

/// A world coordinate scaled by a frequency given in thousandths, rounded
/// toward negative infinity.
pub open spec fn spec_scale(x: int, num: int) -> int {
    (x * num) / 1000
}

/// Biome-purpose noise at `(x, z)`, sampled at the biome frequency.
pub open spec fn spec_biome_noise(n: NoiseGenerators, x: int, z: int) -> int {
    spec_noise(n.biome.seed as int, spec_scale(x, BIOME_FREQ as int), spec_scale(z, BIOME_FREQ as int))
}

/// The biome blend factor `t` in `[0, UNIT]`: 0 means pure plains, `UNIT`
/// means pure forest; a linear remap of the biome noise, clamped.
pub open spec fn spec_blend(n: NoiseGenerators, x: int, z: int) -> int {
    spec_clamp((spec_biome_noise(n, x, z) + 200) * 2, 0, 1000)
}

/// Height-purpose noise at the base frequency.
pub open spec fn spec_base_noise(n: NoiseGenerators, x: int, z: int) -> int {
    spec_noise(n.height.seed as int, spec_scale(x, NOISE_FREQ as int), spec_scale(z, NOISE_FREQ as int))
}

/// Lower-frequency erosion layer, additive to the height.
pub open spec fn spec_erosion(n: NoiseGenerators, x: int, z: int) -> int {
    spec_noise(n.height.seed as int, spec_scale(x, EROSION_FREQ as int), spec_scale(z, EROSION_FREQ as int)) * 2
}

/// Rounded, always nonnegative drift mounds: the squared magnitude of the
/// low-frequency noise, scaled.
pub open spec fn spec_drift(n: NoiseGenerators, x: int, z: int) -> int {
    let d = spec_base_noise(n, x, z);
    (d * d) / 1000 * 6
}

/// Final terrain height at `(x, z)` in fixed point: the base noise scaled
/// per biome and blended by `t`, plus erosion and drift layers.
pub open spec fn spec_height(n: NoiseGenerators, x: int, z: int) -> int {
    let t = spec_blend(n, x, z);
    let base = spec_base_noise(n, x, z);
    let plains = base * (NOISE_AMP as int) * (PLAINS_SCALE as int);
    let forest = base * (NOISE_AMP as int) * (FOREST_SCALE as int);
    let blended = (plains * (1000 - t) + forest * t) / 1000;
    blended + spec_erosion(n, x, z) + spec_drift(n, x, z)
}

/// Biome classification by the same threshold the blend remap is centred
/// on.
pub open spec fn spec_detect_biome(n: NoiseGenerators, x: int, z: int) -> Biome {
    if spec_biome_noise(n, x, z) < -200 {
        Biome::Plains
    } else {
        Biome::Forest
    }
}

/// Vegetation-purpose noise remapped into `[0, UNIT]`.
pub open spec fn spec_tree_noise(n: NoiseGenerators, x: int, z: int) -> int {
    (spec_noise(n.tree.seed as int, spec_scale(x, TREE_FREQ as int), spec_scale(z, TREE_FREQ as int)) + 1000) / 2
}

/// Whether a tree is placed at `(x, z)`: the remapped vegetation noise is
/// compared against a spawn frequency interpolated between a sparse
/// (plains) and a dense (forest) rate by the biome blend factor.
pub open spec fn spec_should_tree_spawn(n: NoiseGenerators, x: int, z: int) -> bool {
    spec_tree_noise(n, x, z) < spec_lerp(30, 250, spec_blend(n, x, z))
}

/// Colour-variation noise at the colour frequency.
pub open spec fn spec_color_noise(n: NoiseGenerators, x: int, z: int) -> int {
    spec_noise(n.height.seed as int, spec_scale(x, COLOR_FREQ as int), spec_scale(z, COLOR_FREQ as int))
}

/// Floor division by 1000 as executable code, via a shift into
/// nonnegative range.
fn div1000(num: i64) -> (q: i64)
    requires
        -1_000_000_000_000 <= num <= 1_000_000_000_000,
    ensures
        q == (num as int) / 1000,
{
    let b: u64 = (num + 1_000_000_000_000) as u64;
    proof {
        lemma_hoist_over_denominator(num as int, 1_000_000_000, 1000nat);
    }
    (b / 1000) as i64 - 1_000_000_000
}

/// Clamps `v` into `[lo, hi]`.
pub fn clamp(v: i64, lo: i64, hi: i64) -> (r: i64)
    requires
        lo <= hi,
    ensures
        r == spec_clamp(v as int, lo as int, hi as int),
{
    if v < lo {
        lo
    } else if v > hi {
        hi
    } else {
        v
    }
}

/// Applies a frequency (in thousandths) to a world coordinate, yielding a
/// noise query coordinate within the noise field's admissible range.
fn scale_freq(x: i64, num: i64) -> (q: i64)
    requires
        -WORLD_LIMIT <= x <= WORLD_LIMIT,
        1 <= num <= 150,
    ensures
        q == spec_scale(x as int, num as int),
        -Q_LIMIT <= q <= Q_LIMIT,
{
    proof {
        assert(-45_000_000_000_000_000 <= (x as int) * (num as int) <= 45_000_000_000_000_000)
            by (nonlinear_arith)
            requires -WORLD_LIMIT <= x <= WORLD_LIMIT && 1 <= num <= 150,
        ;
    }
    let prod: i64 = x * num;
    let b: u64 = (prod + 60_000_000_000_000_000) as u64;
    proof {
        lemma_hoist_over_denominator(prod as int, 60_000_000_000_000, 1000nat);
        lemma_div_is_ordered(-45_000_000_000_000_000, prod as int, 1000);
        lemma_div_is_ordered(prod as int, 45_000_000_000_000_000, 1000);
    }
    (b / 1000) as i64 - 60_000_000_000_000
}

/// The biome blend factor `t` at `(x, z)`.
pub fn biome_blend(world_x: i64, world_z: i64, noise: &NoiseGenerators) -> (t: i64)
    requires
        -WORLD_LIMIT <= world_x <= WORLD_LIMIT,
        -WORLD_LIMIT <= world_z <= WORLD_LIMIT,
    ensures
        t == spec_blend(*noise, world_x as int, world_z as int),
        0 <= t <= 1000,
{
    let biome_val: i64 = noise.biome.get(
        scale_freq(world_x, BIOME_FREQ),
        scale_freq(world_z, BIOME_FREQ),
    );
    clamp((biome_val + 200) * 2, 0, 1000)
}

/// Terrain height at `(x, z)`: pure in the noise field and the absolute
/// world coordinate, hence identical across repeated calls, process runs,
/// and whichever chunk computes it.
pub fn get_height(world_x: i64, world_z: i64, noise: &NoiseGenerators) -> (h: i64)
    requires
        -WORLD_LIMIT <= world_x <= WORLD_LIMIT,
        -WORLD_LIMIT <= world_z <= WORLD_LIMIT,
    ensures
        h == spec_height(*noise, world_x as int, world_z as int),
        -22000 <= h <= 28000,
{
    let t: i64 = biome_blend(world_x, world_z, noise);
    let base_h: i64 = noise.height.get(
        scale_freq(world_x, NOISE_FREQ),
        scale_freq(world_z, NOISE_FREQ),
    );
    let plains_h: i64 = base_h * 20;
    let forest_h: i64 = base_h * 10;
    proof {
        assert(-20_000_000 <= (plains_h as int) * (1000 - t as int) <= 20_000_000)
            by (nonlinear_arith)
            requires -20000 <= plains_h <= 20000 && 0 <= t <= 1000,
        ;
        assert(-10_000_000 <= (forest_h as int) * (t as int) <= 10_000_000)
            by (nonlinear_arith)
            requires -10000 <= forest_h <= 10000 && 0 <= t <= 1000,
        ;
    }
    let num: i64 = plains_h * (1000 - t) + forest_h * t;
    let blended: i64 = div1000(num);
    proof {
        assert(-20_000_000 <= (base_h as int) * 20 * (1000 - t as int) + (base_h as int) * 10 * (t as int) <= 20_000_000)
            by (nonlinear_arith)
            requires -1000 <= base_h <= 1000 && 0 <= t <= 1000,
        ;
        lemma_div_is_ordered(-20_000_000, num as int, 1000);
        lemma_div_is_ordered(num as int, 20_000_000, 1000);
    }
    let erosion: i64 = noise.height.get(
        scale_freq(world_x, EROSION_FREQ),
        scale_freq(world_z, EROSION_FREQ),
    ) * 2;
    proof {
        assert(0 <= (base_h as int) * (base_h as int) <= 1_000_000) by (nonlinear_arith)
            requires -1000 <= base_h <= 1000,
        ;
    }
    let drift_sq: u64 = (base_h * base_h) as u64;
    let drifts: i64 = (drift_sq / 1000) as i64 * 6;
    blended + erosion + drifts
}

/// The biome at `(x, z)`, by the fixed biome-noise threshold.
pub fn detect_biome(world_x: i64, world_z: i64, noise: &NoiseGenerators) -> (b: Biome)
    requires
        -WORLD_LIMIT <= world_x <= WORLD_LIMIT,
        -WORLD_LIMIT <= world_z <= WORLD_LIMIT,
    ensures
        b == spec_detect_biome(*noise, world_x as int, world_z as int),
{
    let biome_val: i64 = noise.biome.get(
        scale_freq(world_x, BIOME_FREQ),
        scale_freq(world_z, BIOME_FREQ),
    );
    if biome_val < -200 {
        Biome::Plains
    } else {
        Biome::Forest
    }
}

/// Whether a tree is placed at `(x, z)`: deterministic, clustered by the
/// vegetation noise, and denser where the biome blend leans to forest.
pub fn should_tree_spawn(world_x: i64, world_z: i64, noise: &NoiseGenerators) -> (r: bool)
    requires
        -WORLD_LIMIT <= world_x <= WORLD_LIMIT,
        -WORLD_LIMIT <= world_z <= WORLD_LIMIT,
    ensures
        r == spec_should_tree_spawn(*noise, world_x as int, world_z as int),
{
    let t: i64 = biome_blend(world_x, world_z, noise);
    let tree_frequency: i64 = lerp(30, 250, t);
    let tree_noise: i64 = noise.tree.get(
        scale_freq(world_x, TREE_FREQ),
        scale_freq(world_z, TREE_FREQ),
    );
    let remapped: i64 = (((tree_noise + 1000) as u64) / 2) as i64;
    remapped < tree_frequency
}

/// A Plains verdict and the blend factor follow the same threshold: where
/// the biome reads Plains, the blend factor is exactly 0, so the height
/// there uses the pure plains scale.
pub proof fn lemma_plains_blend_zero(n: NoiseGenerators, x: int, z: int)
    requires
        spec_detect_biome(n, x, z) == Biome::Plains,
    ensures
        spec_blend(n, x, z) == 0,
{
}

/// The fixed-point world x coordinate of grid column `i` of a chunk.
pub open spec fn spec_world_x(coord: ChunkCoord, i: int) -> int {
    (coord.x * 32 + i) * 3000
}

/// The fixed-point world z coordinate of grid row `j` of a chunk.
pub open spec fn spec_world_z(coord: ChunkCoord, j: int) -> int {
    (coord.z * 32 + j) * 3000
}

/// One mesh vertex: chunk-local x/z in fixed point, terrain height as y.
#[derive(Clone, Copy, PartialEq, Eq, Structural, Debug)]
pub struct Vertex {
    pub x: i64,
    pub y: i64,
    pub z: i64,
}

/// One vertex colour, components in `[0, UNIT]` fixed point.
#[derive(Clone, Copy, PartialEq, Eq, Structural, Debug)]
pub struct VertexColor {
    pub r: i64,
    pub g: i64,
    pub b: i64,
    pub a: i64,
}

/// A tree instance attached to a chunk: chunk-local position and the
/// terrain height there.
#[derive(Clone, Copy, PartialEq, Eq, Structural, Debug)]
pub struct Decoration {
    pub local_x: i64,
    pub local_z: i64,
    pub height: i64,
}

/// A generated chunk surface: a 33 x 33 vertex grid in row-major order
/// (x fastest), matching colours, and two triangles per grid cell.
pub struct Mesh {
    pub positions: Vec<Vertex>,
    pub colors: Vec<VertexColor>,
    pub indices: Vec<u32>,
}

/// The colour variation term at `(x, z)`: a small signed perturbation.
pub open spec fn spec_variation(n: NoiseGenerators, x: int, z: int) -> int {
    (spec_color_noise(n, x, z) * 30) / 1000
}

/// What vertex `k` (row-major, stride 33) of a chunk's grid must be.
pub open spec fn spec_vertex_ok(n: NoiseGenerators, coord: ChunkCoord, k: int, v: Vertex) -> bool {
    &&& v.x == (k % 33) * 3000
    &&& v.z == (k / 33) * 3000
    &&& v.y == spec_height(n, spec_world_x(coord, k % 33), spec_world_z(coord, k / 33))
}

/// What the colour of vertex `k` must be: the base snow tint shifted per
/// channel by the variation noise, clamped to the displayable range.
pub open spec fn spec_color_ok(n: NoiseGenerators, coord: ChunkCoord, k: int, c: VertexColor) -> bool {
    let v = spec_variation(n, spec_world_x(coord, k % 33), spec_world_z(coord, k / 33));
    &&& c.r == spec_clamp(880 + (v * 400) / 1000, 0, 1000)
    &&& c.g == spec_clamp(930 + (v * 600) / 1000, 0, 1000)
    &&& c.b == spec_clamp(1000 + v, 0, 1000)
    &&& c.a == 1000
}

/// The two triangles of grid cell `c` (row-major, 32 cells per row), with
/// consistent winding: indices into the 33-stride vertex grid.
pub open spec fn spec_cell_indices_ok(ind: Seq<u32>, c: int) -> bool {
    let i = (c / 32) * 33 + (c % 32);
    &&& ind[6 * c] as int == i
    &&& ind[6 * c + 1] as int == i + 33
    &&& ind[6 * c + 2] as int == i + 1
    &&& ind[6 * c + 3] as int == i + 1
    &&& ind[6 * c + 4] as int == i + 33
    &&& ind[6 * c + 5] as int == i + 34
}

/// Full correctness of a generated chunk mesh: every vertex, colour and
/// triangle is the unique value determined by the chunk coordinate and the
/// noise field, so regeneration is bit-identical.
pub open spec fn mesh_ok(n: NoiseGenerators, coord: ChunkCoord, m: Mesh) -> bool {
    &&& m.positions@.len() == 1089
    &&& m.colors@.len() == 1089
    &&& m.indices@.len() == 6144
    &&& forall|k: int| 0 <= k < 1089 ==> spec_vertex_ok(n, coord, k, #[trigger] m.positions@[k])
    &&& forall|k: int| 0 <= k < 1089 ==> spec_color_ok(n, coord, k, #[trigger] m.colors@[k])
    &&& forall|c: int| 0 <= c < 1024 ==> #[trigger] spec_cell_indices_ok(m.indices@, c)
}

/// Every triangle index of a well-formed chunk mesh points into its
/// vertex buffer, so a consumer can walk the triangles without bounds
/// failures.
pub proof fn lemma_mesh_indices_valid(n: NoiseGenerators, coord: ChunkCoord, m: Mesh)
    requires
        mesh_ok(n, coord, m),
    ensures
        forall|k: int| 0 <= k < 6144 ==> (#[trigger] m.indices@[k]) < 1089,
{
    assert forall|k: int| 0 <= k < 6144 implies (#[trigger] m.indices@[k]) < 1089 by {
        let c = k / 6;
        let r = k % 6;
        lemma_fundamental_div_mod(k, 6);
        assert(0 <= c < 1024) by {
            lemma_div_is_ordered(0, k, 6);
            lemma_div_is_ordered(k, 6143, 6);
        }
        assert(spec_cell_indices_ok(m.indices@, c));
        let i = (c / 32) * 33 + (c % 32);
        assert(0 <= c / 32 <= 31) by {
            lemma_div_is_ordered(0, c, 32);
            lemma_div_is_ordered(c, 1023, 32);
        }
        assert(i + 34 <= 1088);
        assert(k == 6 * c + r);
    }
}

/// The vertex colour at `(x, z)`.
fn color_at(world_x: i64, world_z: i64, noise: &NoiseGenerators) -> (c: VertexColor)
    requires
        -WORLD_LIMIT <= world_x <= WORLD_LIMIT,
        -WORLD_LIMIT <= world_z <= WORLD_LIMIT,
    ensures
        c.r as int == spec_clamp(880 + (spec_variation(*noise, world_x as int, world_z as int) * 400) / 1000, 0, 1000),
        c.g as int == spec_clamp(930 + (spec_variation(*noise, world_x as int, world_z as int) * 600) / 1000, 0, 1000),
        c.b as int == spec_clamp(1000 + spec_variation(*noise, world_x as int, world_z as int), 0, 1000),
        c.a == 1000,
{
    let cn: i64 = noise.height.get(
        scale_freq(world_x, COLOR_FREQ),
        scale_freq(world_z, COLOR_FREQ),
    );
    let v: i64 = div1000(cn * 30);
    proof {
        lemma_div_is_ordered(-30_000, (cn as int) * 30, 1000);
        lemma_div_is_ordered((cn as int) * 30, 30_000, 1000);
    }
    let rshift: i64 = div1000(v * 400);
    let gshift: i64 = div1000(v * 600);
    VertexColor {
        r: clamp(880 + rshift, 0, 1000),
        g: clamp(930 + gshift, 0, 1000),
        b: clamp(1000 + v, 0, 1000),
        a: 1000,
    }
}

/// Generates the renderable mesh of one chunk. Heights are sampled at
/// absolute world coordinates, so two adjacent chunks compute identical
/// heights along their shared edge, and the whole mesh is a pure function
/// of the chunk coordinate and the noise field.
pub fn calc_to_generate_chunk(coord: ChunkCoord, noise: &NoiseGenerators) -> (m: Mesh)
    ensures
        mesh_ok(*noise, coord, m),
{
    let mut positions: Vec<Vertex> = Vec::new();
    let mut colors: Vec<VertexColor> = Vec::new();
    let mut indices: Vec<u32> = Vec::new();

    let mut z: usize = 0;
    while z < 33
        invariant
            z <= 33,
            positions@.len() == z * 33,
            colors@.len() == z * 33,
            forall|k: int| 0 <= k < z * 33 ==> spec_vertex_ok(*noise, coord, k, #[trigger] positions@[k]),
            forall|k: int| 0 <= k < z * 33 ==> spec_color_ok(*noise, coord, k, #[trigger] colors@[k]),
        decreases 33 - z,
    {
        let mut x: usize = 0;
        while x < 33
            invariant
                z < 33,
                x <= 33,
                positions@.len() == z * 33 + x,
                colors@.len() == z * 33 + x,
                forall|k: int| 0 <= k < z * 33 + x ==> spec_vertex_ok(*noise, coord, k, #[trigger] positions@[k]),
                forall|k: int| 0 <= k < z * 33 + x ==> spec_color_ok(*noise, coord, k, #[trigger] colors@[k]),
            decreases 33 - x,
        {
            let wx: i64 = (coord.x as i64 * 32 + x as i64) * 3000;
            let wz: i64 = (coord.z as i64 * 32 + z as i64) * 3000;
            let h: i64 = get_height(wx, wz, noise);
            let c: VertexColor = color_at(wx, wz, noise);
            proof {
                let k = (z * 33 + x) as int;
                lemma_fundamental_div_mod_converse_mod(k, 33, z as int, x as int);
                lemma_fundamental_div_mod_converse_div(k, 33, z as int, x as int);
            }
            positions.push(Vertex { x: (x as i64) * 3000, y: h, z: (z as i64) * 3000 });
            colors.push(c);
            x = x + 1;
        }
        z = z + 1;
    }

    let mut cz: usize = 0;
    while cz < 32
        invariant
            cz <= 32,
            indices@.len() == 6 * (cz * 32),
            forall|c: int| 0 <= c < cz * 32 ==> #[trigger] spec_cell_indices_ok(indices@, c),
        decreases 32 - cz,
    {
        let mut cx: usize = 0;
        while cx < 32
            invariant
                cz < 32,
                cx <= 32,
                indices@.len() == 6 * (cz * 32 + cx),
                forall|c: int| 0 <= c < cz * 32 + cx ==> #[trigger] spec_cell_indices_ok(indices@, c),
            decreases 32 - cx,
        {
            let i: u32 = (cz * 33 + cx) as u32;
            let ghost before = indices@;
            indices.push(i);
            indices.push(i + 33);
            indices.push(i + 1);
            indices.push(i + 1);
            indices.push(i + 33);
            indices.push(i + 34);
            proof {
                let c = (cz * 32 + cx) as int;
                lemma_fundamental_div_mod_converse_mod(c, 32, cz as int, cx as int);
                lemma_fundamental_div_mod_converse_div(c, 32, cz as int, cx as int);
                assert(forall|j: int| 0 <= j < before.len() ==> indices@[j] == before[j]);
                assert(spec_cell_indices_ok(indices@, c));
                assert forall|c0: int| 0 <= c0 < c implies #[trigger] spec_cell_indices_ok(indices@, c0) by {
                    assert(spec_cell_indices_ok(before, c0));
                }
            }
            cx = cx + 1;
        }
        cz = cz + 1;
    }

    Mesh { positions, colors, indices }
}

/// The decoration list of a chunk, read off cell by cell in row-major
/// order (x fastest): a tree wherever the placement decision holds, at the
/// cell's corner, carrying the terrain height there.
pub open spec fn spec_decos(n: NoiseGenerators, coord: ChunkCoord, k: int) -> Seq<Decoration>
    decreases k,
{
    if k <= 0 {
        Seq::empty()
    } else {
        let c = k - 1;
        let rest = spec_decos(n, coord, c);
        let wx = spec_world_x(coord, c % 32);
        let wz = spec_world_z(coord, c / 32);
        if spec_should_tree_spawn(n, wx, wz) {
            rest.push(Decoration {
                local_x: ((c % 32) * 3000) as i64,
                local_z: ((c / 32) * 3000) as i64,
                height: spec_height(n, wx, wz) as i64,
            })
        } else {
            rest
        }
    }
}

/// Walks the 32 x 32 cells of a chunk and records a decoration for each
/// cell whose placement decision holds; deterministic, so regenerating a
/// chunk yields the same list.
pub fn calc_decorations(coord: ChunkCoord, noise: &NoiseGenerators) -> (d: Vec<Decoration>)
    ensures
        d@ == spec_decos(*noise, coord, 1024),
{
    let mut d: Vec<Decoration> = Vec::new();
    let mut k: usize = 0;
    while k < 1024
        invariant
            k <= 1024,
            d@ == spec_decos(*noise, coord, k as int),
        decreases 1024 - k,
    {
        let x: usize = k % 32;
        let z: usize = k / 32;
        let wx: i64 = (coord.x as i64 * 32 + x as i64) * 3000;
        let wz: i64 = (coord.z as i64 * 32 + z as i64) * 3000;
        if should_tree_spawn(wx, wz, noise) {
            let h: i64 = get_height(wx, wz, noise);
            d.push(Decoration {
                local_x: (x as i64) * 3000,
                local_z: (z as i64) * 3000,
                height: h,
            });
        }
        k = k + 1;
    }
    d
}

/// An upward surface direction at `(x, z)` from central differences of the
/// height field at a small lateral offset: `(-dh/dx, 2 eps, -dh/dz)`, not
/// normalized. The y component is a positive constant, so the result is
/// never degenerate and its handedness never flips.
pub fn get_surface_normal(world_x: i64, world_z: i64, noise: &NoiseGenerators) -> (r: (i64, i64, i64))
    requires
        -WORLD_LIMIT + 100 <= world_x <= WORLD_LIMIT - 100,
        -WORLD_LIMIT + 100 <= world_z <= WORLD_LIMIT - 100,
    ensures
        r.0 == -(spec_height(*noise, world_x + 100, world_z as int) - spec_height(*noise, world_x - 100, world_z as int)),
        r.1 == 200,
        r.2 == -(spec_height(*noise, world_x as int, world_z + 100) - spec_height(*noise, world_x as int, world_z - 100)),
        r.1 > 0,
{
    let hx1: i64 = get_height(world_x + 100, world_z, noise);
    let hx0: i64 = get_height(world_x - 100, world_z, noise);
    let hz1: i64 = get_height(world_x, world_z + 100, noise);
    let hz0: i64 = get_height(world_x, world_z - 100, noise);
    (-(hx1 - hx0), 200, -(hz1 - hz0))
}

/// Height is a pure function of the noise field and the absolute world
/// coordinate: any two samples of the same point agree, across calls,
/// chunks and process runs.
pub proof fn lemma_height_deterministic(n: NoiseGenerators, x: int, z: int, h1: int, h2: int)
    requires
        h1 == spec_height(n, x, z),
        h2 == spec_height(n, x, z),
    ensures
        h1 == h2,
{
}

/// Two chunks adjacent along x share their boundary column: grid column 32
/// of the left chunk is the same world coordinate as grid column 0 of the
/// right chunk, so the heights computed by either mesh are identical.
pub proof fn lemma_boundary_continuity_x(n: NoiseGenerators, c1: ChunkCoord, c2: ChunkCoord, j: int)
    requires
        c2.x == c1.x + 1,
        c2.z == c1.z,
    ensures
        spec_world_x(c1, 32) == spec_world_x(c2, 0),
        spec_height(n, spec_world_x(c1, 32), spec_world_z(c1, j))
            == spec_height(n, spec_world_x(c2, 0), spec_world_z(c2, j)),
{
}

/// The biome blend factor is continuous in the discrete sense: one
/// fixed-point step along x (a thousandth of a world unit) moves `t` by at
/// most 8 thousandths, so `t` never jumps across a biome boundary.
pub proof fn lemma_blend_continuity_x(n: NoiseGenerators, x: int, z: int)
    ensures
        -8 <= spec_blend(n, x + 1, z) - spec_blend(n, x, z) <= 8,
{
    let q0 = spec_scale(x, 8);
    let q1 = spec_scale(x + 1, 8);
    let qz = spec_scale(z, 8);
    assert((x + 1) * 8 == x * 8 + 8);
    crate::noise::lemma_div_close(x * 8, x * 8 + 8, 8, 1000);
    if q1 == q0 + 1 {
        crate::noise::lemma_noise_step_x(n.biome.seed as int, q0, qz);
    }
}

/// The biome blend factor moves by at most 8 thousandths per fixed-point
/// step along z, as along x.
pub proof fn lemma_blend_continuity_z(n: NoiseGenerators, x: int, z: int)
    ensures
        -8 <= spec_blend(n, x, z + 1) - spec_blend(n, x, z) <= 8,
{
    let qx = spec_scale(x, 8);
    let q0 = spec_scale(z, 8);
    let q1 = spec_scale(z + 1, 8);
    assert((z + 1) * 8 == z * 8 + 8);
    crate::noise::lemma_div_close(z * 8, z * 8 + 8, 8, 1000);
    if q1 == q0 + 1 {
        crate::noise::lemma_noise_step_z(n.biome.seed as int, qx, q0);
    }
}

/// Two chunks adjacent along z share their boundary row, as along x.
pub proof fn lemma_boundary_continuity_z(n: NoiseGenerators, c1: ChunkCoord, c2: ChunkCoord, i: int)
    requires
        c2.z == c1.z + 1,
        c2.x == c1.x,
    ensures
        spec_world_z(c1, 32) == spec_world_z(c2, 0),
        spec_height(n, spec_world_x(c1, i), spec_world_z(c1, 32))
            == spec_height(n, spec_world_x(c2, i), spec_world_z(c2, 0)),
{
}

} // verus!
