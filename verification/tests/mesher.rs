use terrain_stream::chunks::{
    calc_decorations, calc_to_generate_chunk, get_height, should_tree_spawn,
};
use terrain_stream::noise::NoiseGenerators;
use terrain_stream::world_gen::ChunkCoord;

#[test]
fn mesh_has_grid_shape() {
    let noise = NoiseGenerators::new(12345);
    let mesh = calc_to_generate_chunk(ChunkCoord { x: 0, z: 0 }, &noise);
    assert_eq!(mesh.positions.len(), 33 * 33);
    assert_eq!(mesh.colors.len(), 33 * 33);
    assert_eq!(mesh.indices.len(), 6 * 32 * 32);
    for (k, v) in mesh.positions.iter().enumerate() {
        assert_eq!(v.x, ((k % 33) as i64) * 3000);
        assert_eq!(v.z, ((k / 33) as i64) * 3000);
    }
    for c in mesh.colors.iter() {
        assert!(0 <= c.r && c.r <= 1000);
        assert!(0 <= c.g && c.g <= 1000);
        assert!(0 <= c.b && c.b <= 1000);
        assert_eq!(c.a, 1000);
    }
}

#[test]
fn mesh_triangulation_exact() {
    let noise = NoiseGenerators::new(7);
    let mesh = calc_to_generate_chunk(ChunkCoord { x: -3, z: 5 }, &noise);
    assert_eq!(&mesh.indices[0..6], &[0, 33, 1, 1, 33, 34]);
    // last cell: x = 31, z = 31, base vertex 31 * 33 + 31 = 1054
    let last = &mesh.indices[6 * 1023..6 * 1024];
    assert_eq!(last, &[1054, 1087, 1055, 1055, 1087, 1088]);
    for &i in mesh.indices.iter() {
        assert!((i as usize) < 33 * 33);
    }
}

#[test]
fn mesh_heights_sample_world_coordinates() {
    let noise = NoiseGenerators::new(12345);
    let coord = ChunkCoord { x: 2, z: -1 };
    let mesh = calc_to_generate_chunk(coord, &noise);
    for z in [0usize, 13, 32] {
        for x in [0usize, 21, 32] {
            let wx = (coord.x as i64 * 32 + x as i64) * 3000;
            let wz = (coord.z as i64 * 32 + z as i64) * 3000;
            assert_eq!(mesh.positions[z * 33 + x].y, get_height(wx, wz, &noise));
        }
    }
}

#[test]
fn mesh_regeneration_identical() {
    let noise = NoiseGenerators::new(12345);
    let coord = ChunkCoord { x: 4, z: 9 };
    let m1 = calc_to_generate_chunk(coord, &noise);
    let m2 = calc_to_generate_chunk(coord, &noise);
    assert_eq!(m1.positions, m2.positions);
    assert_eq!(m1.colors, m2.colors);
    assert_eq!(m1.indices, m2.indices);
}

#[test]
fn boundary_heights_agree_between_adjacent_chunks() {
    let noise = NoiseGenerators::new(12345);
    let left = calc_to_generate_chunk(ChunkCoord { x: 0, z: 0 }, &noise);
    let right = calc_to_generate_chunk(ChunkCoord { x: 1, z: 0 }, &noise);
    for j in 0..33usize {
        assert_eq!(left.positions[j * 33 + 32].y, right.positions[j * 33].y);
    }
    let near = calc_to_generate_chunk(ChunkCoord { x: 0, z: 0 }, &noise);
    let far = calc_to_generate_chunk(ChunkCoord { x: 0, z: 1 }, &noise);
    for i in 0..33usize {
        assert_eq!(near.positions[32 * 33 + i].y, far.positions[i].y);
    }
}

#[test]
fn decorations_follow_placement_decision() {
    let noise = NoiseGenerators::new(12345);
    let coord = ChunkCoord { x: 8, z: 1 };
    let decos = calc_decorations(coord, &noise);
    let mut expected: Vec<(i64, i64)> = Vec::new();
    for k in 0..1024usize {
        let x = (k % 32) as i64;
        let z = (k / 32) as i64;
        let wx = (coord.x as i64 * 32 + x) * 3000;
        let wz = (coord.z as i64 * 32 + z) * 3000;
        if should_tree_spawn(wx, wz, &noise) {
            expected.push((x * 3000, z * 3000));
        }
    }
    assert_eq!(decos.len(), expected.len());
    for (d, (ex, ez)) in decos.iter().zip(expected.iter()) {
        assert_eq!(d.local_x, *ex);
        assert_eq!(d.local_z, *ez);
        let wx = coord.x as i64 * 32 * 3000 + d.local_x;
        let wz = coord.z as i64 * 32 * 3000 + d.local_z;
        assert_eq!(d.height, get_height(wx, wz, &noise));
    }
}
