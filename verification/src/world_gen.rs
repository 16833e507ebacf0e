//! Chunk grid model and the chunk streaming registry.
//!
//! The streamer owns a registry of resident chunks keyed by chunk
//! coordinate. Each tick it floor-divides the observer's position into a
//! chunk coordinate, loads every chunk within the render-distance square
//! that is missing, and evicts every resident chunk outside it, so that
//! after the tick the resident set equals the wanted square exactly.

use std::collections::HashMap;
use vstd::prelude::*;
use vstd::arithmetic::div_mod::{
    lemma_div_is_ordered, lemma_fundamental_div_mod, lemma_fundamental_div_mod_converse_div,
    lemma_fundamental_div_mod_converse_mod, lemma_hoist_over_denominator,
};
use crate::chunks::{calc_decorations, calc_to_generate_chunk, mesh_ok, spec_decos, Decoration, Mesh};
use crate::noise::NoiseGenerators;

verus! {

broadcast use vstd::std_specs::hash::group_hash_axioms;

/// Cells per chunk side; the vertex grid has one more point per side.
pub const CHUNK_SIZE: usize = 32;

/// Distance between neighbouring grid vertices, in fixed point (3.0).
pub const VERTEX_SPACING: i64 = 3000;

/// Chebyshev radius, in chunks, of the square kept resident around the
/// observer.
pub const RENDER_DISTANCE: i32 = 10;

/// Base-height noise frequency, in thousandths per fixed-point unit (0.01).
pub const NOISE_FREQ: i64 = 10;

/// Base-height noise amplitude, in world units.
pub const NOISE_AMP: i64 = 10;

/// Largest magnitude an observer world coordinate may have, so that its
/// chunk coordinate fits an `i32` with room for the render square.
pub const OBSERVER_LIMIT: i64 = 200_000_000_000_000;

/// Identifies a chunk on the infinite grid; equality by value.
#[derive(Clone, Copy, PartialEq, Eq, Structural, Debug, Hash)]
pub struct ChunkCoord {
    pub x: i32,
    pub z: i32,
}

/// The observer's world position in fixed point; only x and z matter to
/// chunk selection.
#[derive(Clone, Copy, PartialEq, Eq, Structural, Debug)]
pub struct ObserverPos {
    pub x: i64,
    pub y: i64,
    pub z: i64,
}

/// Packs a chunk coordinate pair injectively into one registry key.
pub open spec fn enc_key(x: int, z: int) -> u64 {
    (((x + 0x8000_0000) * 0x1_0000_0000) + (z + 0x8000_0000)) as u64
}

/// The x coordinate a registry key decodes to.
pub open spec fn dec_x(k: u64) -> int {
    (k as int) / 0x1_0000_0000 - 0x8000_0000
}

/// The z coordinate a registry key decodes to.
pub open spec fn dec_z(k: u64) -> int {
    (k as int) % 0x1_0000_0000 - 0x8000_0000
}

/// Both components fit an `i32`.
pub open spec fn valid_coord(x: int, z: int) -> bool {
    &&& -0x8000_0000 <= x < 0x8000_0000
    &&& -0x8000_0000 <= z < 0x8000_0000
}

/// `(x, z)` lies within Chebyshev distance `RENDER_DISTANCE` of `c`: the
/// square of chunks kept resident around observer chunk `c`.
pub open spec fn spec_in_square(x: int, z: int, c: ChunkCoord) -> bool {
    &&& c.x - RENDER_DISTANCE <= x <= c.x + RENDER_DISTANCE
    &&& c.z - RENDER_DISTANCE <= z <= c.z + RENDER_DISTANCE
}

/// The chunk coordinate containing a world position: floor division of
/// each axis by the chunk width `CHUNK_SIZE * VERTEX_SPACING`.
pub open spec fn spec_center(p: ObserverPos) -> ChunkCoord {
    ChunkCoord { x: (p.x / 96000) as i32, z: (p.z / 96000) as i32 }
}

/// Key encoding is injective over valid coordinates.
pub proof fn lemma_enc_injective(x1: int, z1: int, x2: int, z2: int)
    requires
        valid_coord(x1, z1),
        valid_coord(x2, z2),
        enc_key(x1, z1) == enc_key(x2, z2),
    ensures
        x1 == x2,
        z1 == z2,
{
    let a1 = x1 + 0x8000_0000;
    let b1 = z1 + 0x8000_0000;
    let a2 = x2 + 0x8000_0000;
    let b2 = z2 + 0x8000_0000;
    let e1 = a1 * 0x1_0000_0000 + b1;
    let e2 = a2 * 0x1_0000_0000 + b2;
    assert(0 <= e1 < 0x1_0000_0000_0000_0000);
    assert(0 <= e2 < 0x1_0000_0000_0000_0000);
    assert(e1 == e2);
    lemma_fundamental_div_mod_converse_div(e1, 0x1_0000_0000, a1, b1);
    lemma_fundamental_div_mod_converse_div(e2, 0x1_0000_0000, a2, b2);
    lemma_fundamental_div_mod_converse_mod(e1, 0x1_0000_0000, a1, b1);
    lemma_fundamental_div_mod_converse_mod(e2, 0x1_0000_0000, a2, b2);
}

/// Every registry key decodes to a valid coordinate that encodes back to
/// the key, so the registry holds chunk coordinates and nothing else.
pub proof fn lemma_key_decodes(k: u64)
    ensures
        valid_coord(dec_x(k), dec_z(k)),
        enc_key(dec_x(k), dec_z(k)) == k,
{
    lemma_fundamental_div_mod(k as int, 0x1_0000_0000);
    lemma_div_is_ordered(k as int, 0xFFFF_FFFF_FFFF_FFFF, 0x1_0000_0000);
    vstd::arithmetic::div_mod::lemma_div_pos_is_pos(k as int, 0x1_0000_0000);
}

/// The registry invariant read off key by key: a key is resident exactly
/// when it is the encoding of a chunk coordinate within the
/// render-distance square of the last observed center — the resident set
/// equals that square, nothing less, nothing more, and holds no key that
/// is not a chunk coordinate.
pub proof fn lemma_registry_exactly_square(r: LoadedChunks, c: ChunkCoord, k: u64)
    requires
        r.wf(),
        r.center == Some(c),
    ensures
        r.chunks@.contains_key(k) <==> (spec_in_square(dec_x(k), dec_z(k), c) && enc_key(
            dec_x(k),
            dec_z(k),
        ) == k),
{
    lemma_key_decodes(k);
}

/// The registry keys of the first `n` cells of the render-distance square
/// around `c`, counted row-major with 21 cells per row.
spec fn square_keys(c: ChunkCoord, n: nat) -> Set<u64>
    decreases n,
{
    if n == 0 {
        Set::empty()
    } else {
        let i = (n - 1) as int;
        square_keys(c, (n - 1) as nat).insert(
            enc_key(c.x - 10 + i / 21, c.z - 10 + i % 21),
        )
    }
}

/// The first `n` cells give `n` distinct keys: membership is exactly "one
/// of the first `n` cells", and the count grows by one per cell because
/// distinct cells encode to distinct keys.
proof fn lemma_square_keys_props(c: ChunkCoord, n: nat)
    requires
        n <= 441,
        -2_100_000_000 <= c.x <= 2_100_000_000,
        -2_100_000_000 <= c.z <= 2_100_000_000,
    ensures
        square_keys(c, n).finite(),
        square_keys(c, n).len() == n,
        forall|k: u64|
            #[trigger] square_keys(c, n).contains(k) <==> exists|i: int|
                0 <= i < n && k == enc_key(c.x - 10 + #[trigger] (i / 21), c.z - 10 + i % 21),
    decreases n,
{
    if n > 0 {
        lemma_square_keys_props(c, (n - 1) as nat);
        let i = (n - 1) as int;
        lemma_div_is_ordered(0, i, 21);
        lemma_div_is_ordered(i, 440, 21);
        let key = enc_key(c.x - 10 + i / 21, c.z - 10 + i % 21);
        if square_keys(c, (n - 1) as nat).contains(key) {
            let j = choose|j: int|
                0 <= j < n - 1 && key == enc_key(c.x - 10 + #[trigger] (j / 21), c.z - 10 + j % 21);
            lemma_div_is_ordered(0, j, 21);
            lemma_div_is_ordered(j, 440, 21);
            lemma_enc_injective(
                c.x - 10 + i / 21,
                c.z - 10 + i % 21,
                c.x - 10 + j / 21,
                c.z - 10 + j % 21,
            );
            lemma_fundamental_div_mod(i, 21);
            lemma_fundamental_div_mod(j, 21);
            assert(false);
        }
        assert forall|k: u64| #[trigger] square_keys(c, n).contains(k) implies exists|i2: int|
            0 <= i2 < n && k == enc_key(c.x - 10 + #[trigger] (i2 / 21), c.z - 10 + i2 % 21) by {
            if k == key {
                assert(0 <= i < n && k == enc_key(c.x - 10 + i / 21, c.z - 10 + i % 21));
            } else {
                let j = choose|j: int|
                    0 <= j < n - 1 && k == enc_key(
                        c.x - 10 + #[trigger] (j / 21),
                        c.z - 10 + j % 21,
                    );
                assert(0 <= j < n && k == enc_key(c.x - 10 + j / 21, c.z - 10 + j % 21));
            }
        }
        assert forall|k: u64|
            (exists|i2: int|
                0 <= i2 < n && k == enc_key(
                    c.x - 10 + #[trigger] (i2 / 21),
                    c.z - 10 + i2 % 21,
                )) implies #[trigger] square_keys(c, n).contains(k) by {
            let i2 = choose|i2: int|
                0 <= i2 < n && k == enc_key(c.x - 10 + #[trigger] (i2 / 21), c.z - 10 + i2 % 21);
            if i2 == i {
                assert(square_keys(c, n).contains(key));
            } else {
                assert(0 <= i2 < n - 1 && k == enc_key(c.x - 10 + i2 / 21, c.z - 10 + i2 % 21));
                assert(square_keys(c, (n - 1) as nat).contains(k));
            }
        }
    }
}

/// After any tick the registry holds exactly `(2 * RENDER_DISTANCE + 1)`
/// squared chunks: 441 resident coordinates, each exactly once.
pub proof fn lemma_registry_count(r: LoadedChunks, c: ChunkCoord)
    requires
        r.wf(),
        r.center == Some(c),
    ensures
        r.chunks@.len() == 441,
{
    lemma_square_keys_props(c, 441);
    assert forall|k: u64| #[trigger] r.chunks@.dom().contains(k) implies square_keys(
        c,
        441,
    ).contains(k) by {
        lemma_key_decodes(k);
        assert(r.chunks@.contains_key(enc_key(dec_x(k), dec_z(k))));
        let dx = dec_x(k) - (c.x - 10);
        let dz = dec_z(k) - (c.z - 10);
        let i = dx * 21 + dz;
        lemma_fundamental_div_mod_converse_div(i, 21, dx, dz);
        lemma_fundamental_div_mod_converse_mod(i, 21, dx, dz);
        assert(0 <= i < 441 && k == enc_key(c.x - 10 + i / 21, c.z - 10 + i % 21));
    }
    assert forall|k: u64| #[trigger] square_keys(c, 441).contains(k) implies r.chunks@.dom()
        .contains(k) by {
        let i = choose|i: int|
            0 <= i < 441 && k == enc_key(c.x - 10 + #[trigger] (i / 21), c.z - 10 + i % 21);
        lemma_div_is_ordered(0, i, 21);
        lemma_div_is_ordered(i, 440, 21);
        assert(r.chunks@.contains_key(enc_key(c.x - 10 + i / 21, c.z - 10 + i % 21)));
    }
    assert(r.chunks@.dom() =~= square_keys(c, 441));
}

/// One newly generated resident chunk, handed to the rendering
/// collaborator: its mesh, its decorations, and the handle now registered
/// for the coordinate.
pub struct LoadedChunk {
    pub coord: ChunkCoord,
    pub handle: u64,
    pub mesh: Mesh,
    pub decorations: Vec<Decoration>,
}

/// One evicted chunk, handed to the rendering collaborator so it can
/// release the resources registered under the handle.
pub struct UnloadedChunk {
    pub coord: ChunkCoord,
    pub handle: u64,
}

/// Everything one tick changed: chunks generated and chunks evicted.
pub struct TickEvents {
    pub loaded: Vec<LoadedChunk>,
    pub unloaded: Vec<UnloadedChunk>,
}

/// The registry of resident chunks: coordinate key to render handle, plus
/// the observer chunk coordinate of the last applied tick. The streamer is
/// the sole mutator.
pub struct LoadedChunks {
    pub chunks: HashMap<u64, u64>,
    pub center: Option<ChunkCoord>,
    pub next_handle: u64,
}

impl LoadedChunks {
    /// The registry invariant: before any tick the registry is empty;
    /// after a tick around center `c` exactly the render-distance square
    /// around `c` is resident, each coordinate exactly once.
    pub open spec fn wf(self) -> bool {
        match self.center {
            None => self.chunks@ == Map::<u64, u64>::empty(),
            Some(c) => {
                &&& -2_100_000_000 <= c.x <= 2_100_000_000
                &&& -2_100_000_000 <= c.z <= 2_100_000_000
                &&& forall|x: int, z: int|
                    valid_coord(x, z) ==> (#[trigger] self.chunks@.contains_key(enc_key(x, z))
                        <==> spec_in_square(x, z, c))
            },
        }
    }

    /// Whether the chunk at `c` is resident.
    pub fn contains(&self, c: ChunkCoord) -> (b: bool)
        ensures
            b == self.chunks@.contains_key(enc_key(c.x as int, c.z as int)),
    {
        let key: u64 = enc_coord(c);
        self.chunks.contains_key(&key)
    }

    /// How many chunks are resident.
    pub fn len(&self) -> (n: usize)
        ensures
            n == self.chunks@.len(),
    {
        self.chunks.len()
    }

    /// An empty registry, valid to tick.
    pub fn new() -> (r: LoadedChunks)
        ensures
            r.wf(),
            r.center is None,
            r.chunks@ == Map::<u64, u64>::empty(),
    {
        LoadedChunks { chunks: HashMap::new(), center: None, next_handle: 0 }
    }
}

impl Default for LoadedChunks {
    /// Same as `LoadedChunks::new`.
    fn default() -> (r: LoadedChunks)
        ensures
            r.wf(),
            r.center is None,
            r.chunks@ == Map::<u64, u64>::empty(),
    {
        LoadedChunks::new()
    }
}

/// What must hold of every load event of a tick around center `c`: the
/// chunk is inside the wanted square, was not resident before, is now
/// registered under the event's handle, and carries exactly the mesh and
/// decorations the chunk coordinate determines.
pub open spec fn loaded_event_ok(
    n: NoiseGenerators,
    old_map: Map<u64, u64>,
    c: ChunkCoord,
    new_map: Map<u64, u64>,
    lc: LoadedChunk,
) -> bool {
    let k = enc_key(lc.coord.x as int, lc.coord.z as int);
    &&& spec_in_square(lc.coord.x as int, lc.coord.z as int, c)
    &&& !old_map.contains_key(k)
    &&& new_map.contains_key(k)
    &&& new_map[k] == lc.handle
    &&& mesh_ok(n, lc.coord, lc.mesh)
    &&& lc.decorations@ == spec_decos(n, lc.coord, 1024)
}

/// What must hold of every unload event of a tick around center `c`: the
/// chunk was resident, now lies outside the wanted square, and the handle
/// is the one it was registered under.
pub open spec fn unloaded_event_ok(old_map: Map<u64, u64>, c: ChunkCoord, uc: UnloadedChunk) -> bool {
    let k = enc_key(uc.coord.x as int, uc.coord.z as int);
    &&& old_map.contains_key(k)
    &&& !spec_in_square(uc.coord.x as int, uc.coord.z as int, c)
    &&& uc.handle == old_map[k]
}

/// The observer's chunk coordinate along one axis.
fn observer_chunk(p: i64) -> (c: i32)
    requires
        -OBSERVER_LIMIT <= p <= OBSERVER_LIMIT,
    ensures
        c as int == (p as int) / 96000,
        -2_100_000_000 <= c <= 2_100_000_000,
{
    let b: u64 = (p + 201_600_000_000_000) as u64;
    proof {
        lemma_hoist_over_denominator(p as int, 2_100_000_000, 96000nat);
        lemma_div_is_ordered(-200_000_000_000_000, p as int, 96000);
        lemma_div_is_ordered(p as int, 200_000_000_000_000, 96000);
    }
    let q: i64 = (b / 96000) as i64;
    (q - 2_100_000_000) as i32
}

/// The registry key of a chunk coordinate.
fn enc_coord(c: ChunkCoord) -> (k: u64)
    ensures
        k == enc_key(c.x as int, c.z as int),
{
    let xs: u64 = (c.x as i64 + 0x8000_0000) as u64;
    let zs: u64 = (c.z as i64 + 0x8000_0000) as u64;
    xs * 0x1_0000_0000 + zs
}

/// Load phase of a tick: walks the wanted square around `nc` and, for
/// every coordinate not yet resident, generates its mesh and decorations,
/// registers a fresh handle, and records a load event. Resident chunks are
/// untouched, so re-requesting a loaded coordinate does no work.
fn load_missing(loaded: &mut LoadedChunks, noise: &NoiseGenerators, nc: ChunkCoord) -> (evs: Vec<
    LoadedChunk,
>)
    requires
        -2_100_000_000 <= nc.x <= 2_100_000_000,
        -2_100_000_000 <= nc.z <= 2_100_000_000,
    ensures
        final(loaded).center == old(loaded).center,
        forall|x: int, z: int|
            valid_coord(x, z) ==> (#[trigger] final(loaded).chunks@.contains_key(enc_key(x, z))
                <==> (old(loaded).chunks@.contains_key(enc_key(x, z)) || spec_in_square(x, z, nc))),
        forall|k: u64| #[trigger]
            old(loaded).chunks@.contains_key(k) ==> final(loaded).chunks@.contains_key(k)
                && final(loaded).chunks@[k] == old(loaded).chunks@[k],
        forall|i: int|
            0 <= i < evs@.len() ==> loaded_event_ok(
                *noise,
                old(loaded).chunks@,
                nc,
                final(loaded).chunks@,
                #[trigger] evs@[i],
            ),
        forall|x: int, z: int|
            valid_coord(x, z) && spec_in_square(x, z, nc) && !old(loaded).chunks@.contains_key(
                #[trigger] enc_key(x, z),
            ) ==> exists|i: int|
                0 <= i < evs@.len() && (#[trigger] evs@[i]).coord == (ChunkCoord {
                    x: x as i32,
                    z: z as i32,
                }),
{
    let ghost old_map = loaded.chunks@;
    let ghost old_center = loaded.center;
    let mut evs: Vec<LoadedChunk> = Vec::new();
    let mut dx: i32 = -10;
    while dx <= 10
        invariant
            -10 <= dx <= 11,
            -2_100_000_000 <= nc.x <= 2_100_000_000,
            -2_100_000_000 <= nc.z <= 2_100_000_000,
            loaded.center == old_center,
            forall|x: int, z: int|
                valid_coord(x, z) ==> (#[trigger] loaded.chunks@.contains_key(enc_key(x, z))
                    <==> (old_map.contains_key(enc_key(x, z)) || (spec_in_square(x, z, nc) && x
                        - nc.x < dx))),
            forall|k: u64| #[trigger]
                old_map.contains_key(k) ==> loaded.chunks@.contains_key(k) && loaded.chunks@[k]
                    == old_map[k],
            forall|i: int|
                0 <= i < evs@.len() ==> loaded_event_ok(
                    *noise,
                    old_map,
                    nc,
                    loaded.chunks@,
                    #[trigger] evs@[i],
                ),
            forall|x: int, z: int|
                valid_coord(x, z) && spec_in_square(x, z, nc) && x - nc.x < dx
                    && !old_map.contains_key(#[trigger] enc_key(x, z)) ==> exists|i: int|
                    0 <= i < evs@.len() && (#[trigger] evs@[i]).coord == (ChunkCoord {
                        x: x as i32,
                        z: z as i32,
                    }),
        decreases 11 - dx,
    {
        let mut dz: i32 = -10;
        while dz <= 10
            invariant
                -10 <= dx <= 10,
                -10 <= dz <= 11,
                -2_100_000_000 <= nc.x <= 2_100_000_000,
                -2_100_000_000 <= nc.z <= 2_100_000_000,
                loaded.center == old_center,
                forall|x: int, z: int|
                    valid_coord(x, z) ==> (#[trigger] loaded.chunks@.contains_key(enc_key(x, z))
                        <==> (old_map.contains_key(enc_key(x, z)) || (spec_in_square(x, z, nc) && (
                        x - nc.x < dx || (x - nc.x == dx && z - nc.z < dz))))),
                forall|k: u64| #[trigger]
                    old_map.contains_key(k) ==> loaded.chunks@.contains_key(k) && loaded.chunks@[k]
                        == old_map[k],
                forall|i: int|
                    0 <= i < evs@.len() ==> loaded_event_ok(
                        *noise,
                        old_map,
                        nc,
                        loaded.chunks@,
                        #[trigger] evs@[i],
                    ),
                forall|x: int, z: int|
                    valid_coord(x, z) && spec_in_square(x, z, nc) && (x - nc.x < dx || (x - nc.x
                        == dx && z - nc.z < dz)) && !old_map.contains_key(
                        #[trigger] enc_key(x, z),
                    ) ==> exists|i: int|
                        0 <= i < evs@.len() && (#[trigger] evs@[i]).coord == (ChunkCoord {
                            x: x as i32,
                            z: z as i32,
                        }),
            decreases 11 - dz,
        {
            let coord = ChunkCoord { x: nc.x + dx, z: nc.z + dz };
            let key: u64 = enc_coord(coord);
            let ghost pre_map = loaded.chunks@;
            let ghost pre_evs = evs@;
            if !loaded.chunks.contains_key(&key) {
                let mesh = calc_to_generate_chunk(coord, noise);
                let decorations = calc_decorations(coord, noise);
                let handle: u64 = loaded.next_handle;
                loaded.next_handle = if handle == u64::MAX {
                    0
                } else {
                    handle + 1
                };
                loaded.chunks.insert(key, handle);
                evs.push(LoadedChunk { coord, handle, mesh, decorations });
                proof {
                    assert forall|x: int, z: int| valid_coord(x, z) implies (
                    #[trigger] loaded.chunks@.contains_key(enc_key(x, z)) <==> (
                    old_map.contains_key(enc_key(x, z)) || (spec_in_square(x, z, nc) && (x - nc.x
                        < dx || (x - nc.x == dx && z - nc.z < dz + 1))))) by {
                        if enc_key(x, z) == key {
                            lemma_enc_injective(x, z, coord.x as int, coord.z as int);
                        }
                        assert(pre_map.contains_key(enc_key(x, z)) <==> (old_map.contains_key(
                            enc_key(x, z),
                        ) || (spec_in_square(x, z, nc) && (x - nc.x < dx || (x - nc.x == dx && z
                            - nc.z < dz)))));
                    }
                    assert forall|i: int| 0 <= i < evs@.len() implies loaded_event_ok(
                        *noise,
                        old_map,
                        nc,
                        loaded.chunks@,
                        #[trigger] evs@[i],
                    ) by {
                        if i < pre_evs.len() {
                            assert(evs@[i] == pre_evs[i]);
                            assert(loaded_event_ok(*noise, old_map, nc, pre_map, pre_evs[i]));
                        } else {
                            assert(evs@[i] == evs@.last());
                        }
                    }
                    assert forall|x: int, z: int|
                        valid_coord(x, z) && spec_in_square(x, z, nc) && (x - nc.x < dx || (x - nc.x
                            == dx && z - nc.z < dz + 1)) && !old_map.contains_key(
                            #[trigger] enc_key(x, z),
                        ) implies exists|i: int|
                        0 <= i < evs@.len() && (#[trigger] evs@[i]).coord == (ChunkCoord {
                            x: x as i32,
                            z: z as i32,
                        }) by {
                        if x == coord.x as int && z == coord.z as int {
                            assert(evs@[pre_evs.len() as int].coord == coord);
                            assert(ChunkCoord { x: x as i32, z: z as i32 } == coord);
                        } else {
                            assert(spec_in_square(x, z, nc) && (x - nc.x < dx || (x - nc.x == dx
                                && z - nc.z < dz)));
                            let i = choose|i: int|
                                0 <= i < pre_evs.len() && (#[trigger] pre_evs[i]).coord == (
                                ChunkCoord { x: x as i32, z: z as i32 });
                            assert(evs@[i] == pre_evs[i]);
                        }
                    }
                }
            } else {
                proof {
                    assert forall|x: int, z: int| valid_coord(x, z) implies (
                    #[trigger] loaded.chunks@.contains_key(enc_key(x, z)) <==> (
                    old_map.contains_key(enc_key(x, z)) || (spec_in_square(x, z, nc) && (x - nc.x
                        < dx || (x - nc.x == dx && z - nc.z < dz + 1))))) by {
                        if x == coord.x as int && z == coord.z as int {
                            assert(loaded.chunks@.contains_key(enc_key(x, z)));
                        }
                    }
                    assert forall|x: int, z: int|
                        valid_coord(x, z) && spec_in_square(x, z, nc) && (x - nc.x < dx || (x - nc.x
                            == dx && z - nc.z < dz + 1)) && !old_map.contains_key(
                            #[trigger] enc_key(x, z),
                        ) implies exists|i: int|
                        0 <= i < evs@.len() && (#[trigger] evs@[i]).coord == (ChunkCoord {
                            x: x as i32,
                            z: z as i32,
                        }) by {
                        if x == coord.x as int && z == coord.z as int {
                            assert(loaded.chunks@.contains_key(enc_key(x, z)));
                            assert(old_map.contains_key(enc_key(x, z)));
                        }
                    }
                }
            }
            dz = dz + 1;
        }
        dx = dx + 1;
    }
    evs
}

/// Eviction phase of a tick: walks the square that was resident around
/// the previous center `oc` and removes every chunk that fell outside the
/// new wanted square around `nc`, recording an unload event with the
/// handle the chunk was registered under.
fn evict_outside(loaded: &mut LoadedChunks, oc: ChunkCoord, nc: ChunkCoord) -> (evs: Vec<
    UnloadedChunk,
>)
    requires
        -2_100_000_000 <= oc.x <= 2_100_000_000,
        -2_100_000_000 <= oc.z <= 2_100_000_000,
        -2_100_000_000 <= nc.x <= 2_100_000_000,
        -2_100_000_000 <= nc.z <= 2_100_000_000,
    ensures
        final(loaded).center == old(loaded).center,
        forall|x: int, z: int|
            valid_coord(x, z) ==> (#[trigger] final(loaded).chunks@.contains_key(enc_key(x, z))
                <==> (old(loaded).chunks@.contains_key(enc_key(x, z)) && !(spec_in_square(x, z, oc)
                && !spec_in_square(x, z, nc)))),
        forall|k: u64| #[trigger]
            final(loaded).chunks@.contains_key(k) ==> old(loaded).chunks@.contains_key(k)
                && final(loaded).chunks@[k] == old(loaded).chunks@[k],
        forall|i: int|
            0 <= i < evs@.len() ==> {
                let uc = #[trigger] evs@[i];
                let k = enc_key(uc.coord.x as int, uc.coord.z as int);
                &&& old(loaded).chunks@.contains_key(k)
                &&& uc.handle == old(loaded).chunks@[k]
                &&& spec_in_square(uc.coord.x as int, uc.coord.z as int, oc)
                &&& !spec_in_square(uc.coord.x as int, uc.coord.z as int, nc)
            },
        forall|x: int, z: int|
            valid_coord(x, z) && spec_in_square(x, z, oc) && !spec_in_square(x, z, nc)
                && old(loaded).chunks@.contains_key(#[trigger] enc_key(x, z)) ==> exists|i: int|
                0 <= i < evs@.len() && (#[trigger] evs@[i]).coord == (ChunkCoord {
                    x: x as i32,
                    z: z as i32,
                }),
{
    let ghost old_map = loaded.chunks@;
    let ghost old_center = loaded.center;
    let mut evs: Vec<UnloadedChunk> = Vec::new();
    let mut dx: i32 = -10;
    while dx <= 10
        invariant
            -10 <= dx <= 11,
            -2_100_000_000 <= oc.x <= 2_100_000_000,
            -2_100_000_000 <= oc.z <= 2_100_000_000,
            -2_100_000_000 <= nc.x <= 2_100_000_000,
            -2_100_000_000 <= nc.z <= 2_100_000_000,
            loaded.center == old_center,
            forall|x: int, z: int|
                valid_coord(x, z) ==> (#[trigger] loaded.chunks@.contains_key(enc_key(x, z))
                    <==> (old_map.contains_key(enc_key(x, z)) && !(spec_in_square(x, z, oc)
                    && !spec_in_square(x, z, nc) && x - oc.x < dx))),
            forall|k: u64| #[trigger]
                loaded.chunks@.contains_key(k) ==> old_map.contains_key(k) && loaded.chunks@[k]
                    == old_map[k],
            forall|i: int|
                0 <= i < evs@.len() ==> {
                    let uc = #[trigger] evs@[i];
                    let k = enc_key(uc.coord.x as int, uc.coord.z as int);
                    &&& old_map.contains_key(k)
                    &&& uc.handle == old_map[k]
                    &&& spec_in_square(uc.coord.x as int, uc.coord.z as int, oc)
                    &&& !spec_in_square(uc.coord.x as int, uc.coord.z as int, nc)
                },
            forall|x: int, z: int|
                valid_coord(x, z) && spec_in_square(x, z, oc) && !spec_in_square(x, z, nc) && x
                    - oc.x < dx && old_map.contains_key(#[trigger] enc_key(x, z)) ==> exists|i: int|
                    0 <= i < evs@.len() && (#[trigger] evs@[i]).coord == (ChunkCoord {
                        x: x as i32,
                        z: z as i32,
                    }),
        decreases 11 - dx,
    {
        let mut dz: i32 = -10;
        while dz <= 10
            invariant
                -10 <= dx <= 10,
                -10 <= dz <= 11,
                -2_100_000_000 <= oc.x <= 2_100_000_000,
                -2_100_000_000 <= oc.z <= 2_100_000_000,
                -2_100_000_000 <= nc.x <= 2_100_000_000,
                -2_100_000_000 <= nc.z <= 2_100_000_000,
                loaded.center == old_center,
                forall|x: int, z: int|
                    valid_coord(x, z) ==> (#[trigger] loaded.chunks@.contains_key(enc_key(x, z))
                        <==> (old_map.contains_key(enc_key(x, z)) && !(spec_in_square(x, z, oc)
                        && !spec_in_square(x, z, nc) && (x - oc.x < dx || (x - oc.x == dx && z
                        - oc.z < dz))))),
                forall|k: u64| #[trigger]
                    loaded.chunks@.contains_key(k) ==> old_map.contains_key(k) && loaded.chunks@[k]
                        == old_map[k],
                forall|i: int|
                    0 <= i < evs@.len() ==> {
                        let uc = #[trigger] evs@[i];
                        let k = enc_key(uc.coord.x as int, uc.coord.z as int);
                        &&& old_map.contains_key(k)
                        &&& uc.handle == old_map[k]
                        &&& spec_in_square(uc.coord.x as int, uc.coord.z as int, oc)
                        &&& !spec_in_square(uc.coord.x as int, uc.coord.z as int, nc)
                    },
                forall|x: int, z: int|
                    valid_coord(x, z) && spec_in_square(x, z, oc) && !spec_in_square(x, z, nc) && (x
                        - oc.x < dx || (x - oc.x == dx && z - oc.z < dz)) && old_map.contains_key(
                        #[trigger] enc_key(x, z),
                    ) ==> exists|i: int|
                        0 <= i < evs@.len() && (#[trigger] evs@[i]).coord == (ChunkCoord {
                            x: x as i32,
                            z: z as i32,
                        }),
            decreases 11 - dz,
        {
            let coord = ChunkCoord { x: oc.x + dx, z: oc.z + dz };
            let outside: bool = coord.x < nc.x - 10 || coord.x > nc.x + 10 || coord.z < nc.z - 10
                || coord.z > nc.z + 10;
            let ghost pre_map = loaded.chunks@;
            let ghost pre_evs = evs@;
            if outside {
                let key: u64 = enc_coord(coord);
                let removed: Option<u64> = loaded.chunks.remove(&key);
                match removed {
                    Some(handle) => {
                        evs.push(UnloadedChunk { coord, handle });
                    },
                    None => {},
                }
                proof {
                    assert forall|x: int, z: int| valid_coord(x, z) implies (
                    #[trigger] loaded.chunks@.contains_key(enc_key(x, z)) <==> (
                    old_map.contains_key(enc_key(x, z)) && !(spec_in_square(x, z, oc)
                        && !spec_in_square(x, z, nc) && (x - oc.x < dx || (x - oc.x == dx && z
                        - oc.z < dz + 1))))) by {
                        if enc_key(x, z) == key {
                            lemma_enc_injective(x, z, coord.x as int, coord.z as int);
                        }
                        assert(pre_map.contains_key(enc_key(x, z)) <==> (old_map.contains_key(
                            enc_key(x, z),
                        ) && !(spec_in_square(x, z, oc) && !spec_in_square(x, z, nc) && (x - oc.x
                            < dx || (x - oc.x == dx && z - oc.z < dz)))));
                    }
                    assert forall|x: int, z: int|
                        valid_coord(x, z) && spec_in_square(x, z, oc) && !spec_in_square(x, z, nc)
                            && (x - oc.x < dx || (x - oc.x == dx && z - oc.z < dz + 1))
                            && old_map.contains_key(#[trigger] enc_key(x, z)) implies exists|i: int|
                        0 <= i < evs@.len() && (#[trigger] evs@[i]).coord == (ChunkCoord {
                            x: x as i32,
                            z: z as i32,
                        }) by {
                        if x == coord.x as int && z == coord.z as int {
                            assert(pre_map.contains_key(enc_key(x, z)));
                            assert(evs@[pre_evs.len() as int].coord == coord);
                            assert(ChunkCoord { x: x as i32, z: z as i32 } == coord);
                        } else {
                            let i = choose|i: int|
                                0 <= i < pre_evs.len() && (#[trigger] pre_evs[i]).coord == (
                                ChunkCoord { x: x as i32, z: z as i32 });
                            assert(evs@[i] == pre_evs[i]);
                        }
                    }
                }
            } else {
                proof {
                    assert forall|x: int, z: int| valid_coord(x, z) implies (
                    #[trigger] loaded.chunks@.contains_key(enc_key(x, z)) <==> (
                    old_map.contains_key(enc_key(x, z)) && !(spec_in_square(x, z, oc)
                        && !spec_in_square(x, z, nc) && (x - oc.x < dx || (x - oc.x == dx && z
                        - oc.z < dz + 1))))) by {
                        assert(pre_map.contains_key(enc_key(x, z)) <==> (old_map.contains_key(
                            enc_key(x, z),
                        ) && !(spec_in_square(x, z, oc) && !spec_in_square(x, z, nc) && (x - oc.x
                            < dx || (x - oc.x == dx && z - oc.z < dz)))));
                    }
                }
            }
            dz = dz + 1;
        }
        dx = dx + 1;
    }
    evs
}

/// One streaming tick. With no observer the tick is skipped and nothing
/// changes. With an observer at `p` the registry is brought to exactly the
/// render-distance square around the observer's chunk coordinate: missing
/// chunks are generated, registered and reported as load events; chunks
/// outside the square are removed and reported as unload events, each with
/// the handle it was registered under. Re-ticking with an unchanged
/// observer chunk does no work: no generation, no churn.
pub fn chunk_system(
    loaded: &mut LoadedChunks,
    noise: &NoiseGenerators,
    observer: Option<ObserverPos>,
) -> (ev: TickEvents)
    requires
        old(loaded).wf(),
        observer matches Some(p) ==> -OBSERVER_LIMIT <= p.x <= OBSERVER_LIMIT && -OBSERVER_LIMIT
            <= p.z <= OBSERVER_LIMIT,
    ensures
        final(loaded).wf(),
        observer is None ==> *final(loaded) == *old(loaded) && ev.loaded@.len() == 0
            && ev.unloaded@.len() == 0,
        observer matches Some(p) ==> {
            let c = spec_center(p);
            &&& final(loaded).center == Some(c)
            &&& forall|x: int, z: int|
                valid_coord(x, z) ==> (#[trigger] final(loaded).chunks@.contains_key(
                    enc_key(x, z),
                ) <==> spec_in_square(x, z, c))
            &&& forall|i: int|
                0 <= i < ev.loaded@.len() ==> loaded_event_ok(
                    *noise,
                    old(loaded).chunks@,
                    c,
                    final(loaded).chunks@,
                    #[trigger] ev.loaded@[i],
                )
            &&& forall|i: int|
                0 <= i < ev.unloaded@.len() ==> unloaded_event_ok(
                    old(loaded).chunks@,
                    c,
                    #[trigger] ev.unloaded@[i],
                )
            &&& forall|x: int, z: int|
                valid_coord(x, z) && spec_in_square(x, z, c) && !old(loaded).chunks@.contains_key(
                    #[trigger] enc_key(x, z),
                ) ==> exists|i: int|
                    0 <= i < ev.loaded@.len() && (#[trigger] ev.loaded@[i]).coord == (ChunkCoord {
                        x: x as i32,
                        z: z as i32,
                    })
            &&& forall|x: int, z: int|
                valid_coord(x, z) && !spec_in_square(x, z, c) && old(loaded).chunks@.contains_key(
                    #[trigger] enc_key(x, z),
                ) ==> exists|i: int|
                    0 <= i < ev.unloaded@.len() && (#[trigger] ev.unloaded@[i]).coord == (ChunkCoord {
                        x: x as i32,
                        z: z as i32,
                    })
            &&& old(loaded).center == Some(c) ==> final(loaded).chunks@ == old(loaded).chunks@
                && ev.loaded@.len() == 0 && ev.unloaded@.len() == 0
        },
{
    let p: ObserverPos = match observer {
        Some(p) => p,
        None => {
            return TickEvents { loaded: Vec::new(), unloaded: Vec::new() };
        },
    };
    let ncx: i32 = observer_chunk(p.x);
    let ncz: i32 = observer_chunk(p.z);
    let nc = ChunkCoord { x: ncx, z: ncz };
    proof {
        assert(nc == spec_center(p));
    }

    let same: bool = match loaded.center {
        Some(oc) => oc.x == ncx && oc.z == ncz,
        None => false,
    };
    if same {
        return TickEvents { loaded: Vec::new(), unloaded: Vec::new() };
    }

    let ghost m0 = loaded.chunks@;
    let old_center: Option<ChunkCoord> = loaded.center;

    let levs: Vec<LoadedChunk> = load_missing(loaded, noise, nc);
    let ghost m1 = loaded.chunks@;

    let uevs: Vec<UnloadedChunk> = match old_center {
        Some(oc) => evict_outside(loaded, oc, nc),
        None => Vec::new(),
    };

    loaded.center = Some(nc);

    proof {
        match old_center {
            None => {
                assert(m0 == Map::<u64, u64>::empty());
                assert forall|x: int, z: int| valid_coord(x, z) implies (
                #[trigger] loaded.chunks@.contains_key(enc_key(x, z)) <==> spec_in_square(
                    x,
                    z,
                    nc,
                )) by {
                    assert(m1.contains_key(enc_key(x, z)) <==> (m0.contains_key(enc_key(x, z))
                        || spec_in_square(x, z, nc)));
                }
            },
            Some(oc) => {
                assert forall|x: int, z: int| valid_coord(x, z) implies (
                #[trigger] loaded.chunks@.contains_key(enc_key(x, z)) <==> spec_in_square(
                    x,
                    z,
                    nc,
                )) by {
                    assert(m0.contains_key(enc_key(x, z)) <==> spec_in_square(x, z, oc));
                    assert(m1.contains_key(enc_key(x, z)) <==> (m0.contains_key(enc_key(x, z))
                        || spec_in_square(x, z, nc)));
                }
                assert forall|i: int| 0 <= i < uevs@.len() implies unloaded_event_ok(
                    m0,
                    nc,
                    #[trigger] uevs@[i],
                ) by {
                    let uc = uevs@[i];
                    let k = enc_key(uc.coord.x as int, uc.coord.z as int);
                    assert(m0.contains_key(k) <==> spec_in_square(uc.coord.x as int, uc.coord.z as int, oc));
                }
                assert forall|x: int, z: int|
                    valid_coord(x, z) && !spec_in_square(x, z, nc) && m0.contains_key(
                        #[trigger] enc_key(x, z),
                    ) implies exists|i: int|
                    0 <= i < uevs@.len() && (#[trigger] uevs@[i]).coord == (ChunkCoord {
                        x: x as i32,
                        z: z as i32,
                    }) by {
                    assert(m0.contains_key(enc_key(x, z)) <==> spec_in_square(x, z, oc));
                    assert(m1.contains_key(enc_key(x, z)) <==> (m0.contains_key(enc_key(x, z))
                        || spec_in_square(x, z, nc)));
                }
                assert forall|i: int| 0 <= i < levs@.len() implies loaded_event_ok(
                    *noise,
                    m0,
                    nc,
                    loaded.chunks@,
                    #[trigger] levs@[i],
                ) by {
                    let lc = levs@[i];
                    let k = enc_key(lc.coord.x as int, lc.coord.z as int);
                    assert(loaded_event_ok(*noise, m0, nc, m1, lc));
                    assert(loaded.chunks@.contains_key(k) <==> (m1.contains_key(k)
                        && !(spec_in_square(lc.coord.x as int, lc.coord.z as int, oc)
                        && !spec_in_square(lc.coord.x as int, lc.coord.z as int, nc))));
                }
            },
        }
    }

    let ghost levs_g = levs@;
    let ghost uevs_g = uevs@;
    let ev = TickEvents { loaded: levs, unloaded: uevs };
    proof {
        assert(ev.loaded@ == levs_g);
        assert(ev.unloaded@ == uevs_g);
        assert forall|x: int, z: int|
            valid_coord(x, z) && spec_in_square(x, z, nc) && !m0.contains_key(
                #[trigger] enc_key(x, z),
            ) implies exists|i: int|
            0 <= i < ev.loaded@.len() && (#[trigger] ev.loaded@[i]).coord == (ChunkCoord {
                x: x as i32,
                z: z as i32,
            }) by {
            let i = choose|i: int|
                0 <= i < levs_g.len() && (#[trigger] levs_g[i]).coord == (ChunkCoord {
                    x: x as i32,
                    z: z as i32,
                });
            assert(ev.loaded@[i] == levs_g[i]);
        }
        assert forall|x: int, z: int|
            valid_coord(x, z) && !spec_in_square(x, z, nc) && m0.contains_key(
                #[trigger] enc_key(x, z),
            ) implies exists|i: int|
            0 <= i < ev.unloaded@.len() && (#[trigger] ev.unloaded@[i]).coord == (ChunkCoord {
                x: x as i32,
                z: z as i32,
            }) by {
            let i = choose|i: int|
                0 <= i < uevs_g.len() && (#[trigger] uevs_g[i]).coord == (ChunkCoord {
                    x: x as i32,
                    z: z as i32,
                });
            assert(ev.unloaded@[i] == uevs_g[i]);
        }
    }
    ev
}

} // verus!
