use std::collections::HashMap;
use terrain_stream::noise::NoiseGenerators;
use terrain_stream::world_gen::{chunk_system, ChunkCoord, LoadedChunks, ObserverPos, OBSERVER_LIMIT};

#[test]
fn tick_skipped_without_observer() {
    let noise = NoiseGenerators::new(12345);
    let mut reg = LoadedChunks::new();
    let ev = chunk_system(&mut reg, &noise, None);
    assert_eq!(ev.loaded.len(), 0);
    assert_eq!(ev.unloaded.len(), 0);
    assert_eq!(reg.chunks.len(), 0);
    assert!(reg.center.is_none());
}

#[test]
fn first_tick_loads_the_full_square_and_move_swaps_one_column() {
    // seed 12345, CHUNK_SIZE 32, VERTEX_SPACING 3.0, RENDER_DISTANCE 10,
    // observer at the origin: chunk (0, 0), 21 x 21 = 441 resident chunks.
    let noise = NoiseGenerators::new(12345);
    let mut reg = LoadedChunks::new();
    let origin = ObserverPos { x: 0, y: 0, z: 0 };
    let ev = chunk_system(&mut reg, &noise, Some(origin));
    assert_eq!(ev.loaded.len(), 441);
    assert_eq!(ev.unloaded.len(), 0);
    assert_eq!(reg.len(), 441);
    assert_eq!(reg.center, Some(ChunkCoord { x: 0, z: 0 }));
    for lc in ev.loaded.iter() {
        assert!(-10 <= lc.coord.x && lc.coord.x <= 10);
        assert!(-10 <= lc.coord.z && lc.coord.z <= 10);
        assert_eq!(lc.mesh.positions.len(), 33 * 33);
    }
    let mut handles: HashMap<(i32, i32), u64> = HashMap::new();
    for lc in ev.loaded.iter() {
        let prior = handles.insert((lc.coord.x, lc.coord.z), lc.handle);
        assert!(prior.is_none());
    }

    // One chunk width along +x: evict the 21 chunks at x = -10, load the
    // 21 at x = 11, total resident count unchanged.
    let moved = ObserverPos { x: 96_000, y: 0, z: 0 };
    let ev2 = chunk_system(&mut reg, &noise, Some(moved));
    assert_eq!(ev2.loaded.len(), 21);
    assert_eq!(ev2.unloaded.len(), 21);
    assert_eq!(reg.chunks.len(), 441);
    assert_eq!(reg.center, Some(ChunkCoord { x: 1, z: 0 }));
    for lc in ev2.loaded.iter() {
        assert_eq!(lc.coord.x, 11);
        assert!(-10 <= lc.coord.z && lc.coord.z <= 10);
    }
    for uc in ev2.unloaded.iter() {
        assert_eq!(uc.coord.x, -10);
        assert!(-10 <= uc.coord.z && uc.coord.z <= 10);
        // the handle handed back is the one the chunk was loaded under
        assert_eq!(handles.get(&(uc.coord.x, uc.coord.z)), Some(&uc.handle));
    }

    // the resident set is exactly the square around the new center (1, 0)
    for dx in -11..=11i32 {
        for dz in -11..=11i32 {
            let inside = -10 <= dx && dx <= 10 && -10 <= dz && dz <= 10;
            assert_eq!(reg.contains(ChunkCoord { x: 1 + dx, z: dz }), inside);
        }
    }
}

#[test]
fn retick_with_unchanged_observer_is_a_no_op() {
    let noise = NoiseGenerators::new(12345);
    let mut reg = LoadedChunks::new();
    let pos = ObserverPos { x: 48_000, y: 5_000, z: -48_000 };
    let ev1 = chunk_system(&mut reg, &noise, Some(pos));
    assert_eq!(ev1.loaded.len(), 441);
    let before = reg.chunks.len();
    let ev2 = chunk_system(&mut reg, &noise, Some(pos));
    assert_eq!(ev2.loaded.len(), 0);
    assert_eq!(ev2.unloaded.len(), 0);
    assert_eq!(reg.chunks.len(), before);
    // a different position inside the same chunk is also a no-op
    let nearby = ObserverPos { x: 48_500, y: 0, z: -48_500 };
    let ev3 = chunk_system(&mut reg, &noise, Some(nearby));
    assert_eq!(ev3.loaded.len(), 0);
    assert_eq!(ev3.unloaded.len(), 0);
}

#[test]
fn observer_at_world_limit_still_streams() {
    let noise = NoiseGenerators::new(12345);
    let mut reg = LoadedChunks::new();
    let pos = ObserverPos { x: OBSERVER_LIMIT, y: 0, z: -OBSERVER_LIMIT };
    let ev = chunk_system(&mut reg, &noise, Some(pos));
    assert_eq!(ev.loaded.len(), 441);
    assert_eq!(reg.chunks.len(), 441);
    let c = reg.center.expect("center set after a tick");
    assert_eq!(c.x as i64, OBSERVER_LIMIT / 96_000);
    assert_eq!(c.z as i64, -OBSERVER_LIMIT / 96_000 - 1);
}

#[test]
fn observer_chunk_uses_floor_division() {
    let noise = NoiseGenerators::new(1);
    let mut reg = LoadedChunks::new();
    // just below the origin chunk on both axes: floor lands at (-1, -1)
    let pos = ObserverPos { x: -1, y: 0, z: -96_000 };
    chunk_system(&mut reg, &noise, Some(pos));
    assert_eq!(reg.center, Some(ChunkCoord { x: -1, z: -1 }));
    assert_eq!(reg.chunks.len(), 441);
}
