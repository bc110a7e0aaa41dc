use tilemap_chunk::{Chunk, ChunkError, Dimension3, Entity, LayerKind, MeshHandle, Point2, Point3, RawTile, Rgba, Tile};

fn dims(width: u32, height: u32, depth: u32) -> Dimension3 {
    Dimension3 { width, height, depth }
}

fn tile(z: u32, sprite_order: usize, sprite_index: usize, tint: Rgba) -> Tile {
    Tile { point: Point3 { x: 0, y: 0, z }, sprite_order, sprite_index, tint }
}

fn chunk(layers: &[Option<LayerKind>], d: Dimension3) -> Chunk {
    Chunk::new(Point2 { x: 3, y: -2 }, layers, d, MeshHandle { id: 7 })
}

fn as_floats(c: Rgba) -> [f32; 4] {
    [c.r as f32 / 255.0, c.g as f32 / 255.0, c.b as f32 / 255.0, c.a as f32 / 255.0]
}

fn red() -> Rgba {
    Rgba::rgba(255, 0, 0, 255)
}

fn green() -> Rgba {
    Rgba::rgba(0, 255, 0, 255)
}

#[test]
fn dense_scenario_renders_written_tile() {
    let mut c = chunk(&[Some(LayerKind::Dense)], dims(2, 2, 1));
    assert_eq!(c.set_tile(1, tile(0, 0, 5, red())), Ok(()));
    let (indices, colors) = c.tiles_to_renderer_parts(dims(2, 2, 1));
    let indices: Vec<f32> = indices.iter().map(|i| *i as f32).collect();
    assert_eq!(indices, vec![0.0, 5.0, 0.0, 0.0]);
    let colors: Vec<[f32; 4]> = colors.into_iter().map(as_floats).collect();
    assert_eq!(
        colors,
        vec![[0.0, 0.0, 0.0, 0.0], [1.0, 0.0, 0.0, 1.0], [0.0, 0.0, 0.0, 0.0], [0.0, 0.0, 0.0, 0.0]]
    );
}

#[test]
fn sparse_scenario_densifies() {
    let mut c = chunk(&[Some(LayerKind::Sparse)], dims(2, 2, 1));
    let (indices, colors) = c.tiles_to_renderer_parts(dims(2, 2, 1));
    assert_eq!(indices, vec![0, 0, 0, 0]);
    assert_eq!(colors, vec![Rgba::transparent(); 4]);
    assert_eq!(c.set_tile(2, tile(0, 0, 9, green())), Ok(()));
    let (indices, colors) = c.tiles_to_renderer_parts(dims(2, 2, 1));
    assert_eq!(indices, vec![0, 0, 9, 0]);
    let t = Rgba::transparent();
    assert_eq!(colors, vec![t, t, green(), t]);
    assert_eq!(as_floats(colors[2]), [0.0, 1.0, 0.0, 1.0]);
}

#[test]
fn remove_layer_reverts_to_empty_sparse() {
    let mut c = chunk(&[Some(LayerKind::Dense)], dims(2, 2, 2));
    assert_eq!(c.set_tile(3, tile(1, 0, 4, red())), Ok(()));
    assert!(c.get_tile(0, 0, 0).is_some());
    assert_eq!(c.remove_layer(0), Ok(()));
    for z in 0..2 {
        for i in 0..4 {
            assert_eq!(c.get_tile(i, 0, z), None);
        }
    }
    assert_eq!(c.get_tile_indices(0, 0), Some(vec![]));
    assert_eq!(c.remove_layer(1), Err(ChunkError::LayerIndexOutOfBounds));
}

#[test]
fn set_tile_beyond_layer_count_is_refused() {
    let mut c = chunk(&[Some(LayerKind::Dense), Some(LayerKind::Sparse)], dims(2, 2, 1));
    assert_eq!(c.set_tile(0, tile(0, 0, 1, red())), Ok(()));
    assert_eq!(c.set_tile(2, tile(0, 1, 2, green())), Ok(()));
    let before = c.tiles_to_renderer_parts(dims(2, 2, 1));
    assert_eq!(c.set_tile(0, tile(0, 2, 8, red())), Err(ChunkError::LayerIndexOutOfBounds));
    assert_eq!(c.set_tile(0, tile(0, 99, 8, red())), Err(ChunkError::LayerIndexOutOfBounds));
    assert_eq!(c.tiles_to_renderer_parts(dims(2, 2, 1)), before);
    assert_eq!(c.get_tile(0, 0, 0), Some(&RawTile { index: 1, color: red() }));
    assert_eq!(c.get_tile(2, 1, 0), Some(&RawTile { index: 2, color: green() }));
}

#[test]
fn set_tile_errors_for_depth_and_dense_index() {
    let mut c = chunk(&[Some(LayerKind::Dense)], dims(2, 2, 1));
    assert_eq!(c.set_tile(0, tile(1, 0, 1, red())), Err(ChunkError::LayerMissing));
    assert_eq!(c.set_tile(4, tile(0, 0, 1, red())), Err(ChunkError::TileIndexOutOfBounds));
    assert_eq!(c.remove_tile(0, 0, 5), Err(ChunkError::LayerMissing));
    assert_eq!(c.remove_tile(0, 3, 0), Err(ChunkError::LayerIndexOutOfBounds));
    assert_eq!(c.remove_tile(4, 0, 0), Err(ChunkError::TileIndexOutOfBounds));
    let (indices, _) = c.tiles_to_renderer_parts(dims(2, 2, 1));
    assert_eq!(indices, vec![0, 0, 0, 0]);
}

#[test]
fn dense_layer_always_has_a_tile() {
    let mut c = chunk(&[Some(LayerKind::Dense)], dims(3, 2, 2));
    for z in 0..2 {
        for i in 0..6 {
            assert_eq!(c.get_tile(i, 0, z), Some(&RawTile::placeholder()));
        }
        assert_eq!(c.get_tile(6, 0, z), None);
    }
    assert_eq!(c.set_tile(5, tile(1, 0, 3, red())), Ok(()));
    assert_eq!(c.remove_tile(5, 0, 1), Ok(()));
    assert_eq!(c.get_tile(5, 0, 1), Some(&RawTile::placeholder()));
}

#[test]
fn sparse_layer_empty_until_set_and_after_remove() {
    let mut c = chunk(&[None], dims(2, 2, 1));
    assert_eq!(c.get_tile(1, 0, 0), None);
    assert_eq!(c.set_tile(1, tile(0, 0, 6, green())), Ok(()));
    assert_eq!(c.get_tile(1, 0, 0), Some(&RawTile { index: 6, color: green() }));
    assert_eq!(c.get_tile(0, 0, 0), None);
    assert_eq!(c.remove_tile(1, 0, 0), Ok(()));
    assert_eq!(c.get_tile(1, 0, 0), None);
    assert_eq!(c.remove_tile(1, 0, 0), Ok(()));
    assert_eq!(c.get_tile(1, 0, 0), None);
}

#[test]
fn sparse_layer_accepts_large_indices() {
    let mut c = chunk(&[Some(LayerKind::Sparse)], dims(2, 2, 1));
    assert_eq!(c.set_tile(1000, tile(0, 0, 2, red())), Ok(()));
    assert_eq!(c.get_tile(1000, 0, 0), Some(&RawTile { index: 2, color: red() }));
    let (indices, _) = c.tiles_to_renderer_parts(dims(2, 2, 1));
    assert_eq!(indices, vec![0, 0, 0, 0]);
}

#[test]
fn set_then_get_round_trip_both_kinds() {
    let mut c = chunk(&[Some(LayerKind::Dense), Some(LayerKind::Sparse)], dims(4, 4, 3));
    let t = Rgba::rgba(10, 20, 30, 40);
    for so in 0..2 {
        for z in 0..3u32 {
            for i in [0usize, 7, 15] {
                let sprite = so * 100 + z as usize * 10 + i;
                assert_eq!(c.set_tile(i, tile(z, so, sprite, t)), Ok(()));
                assert_eq!(c.get_tile(i, so, z as usize), Some(&RawTile { index: sprite, color: t }));
            }
        }
    }
}

#[test]
fn attributes_have_area_length() {
    let d = dims(3, 5, 2);
    let mut c = chunk(&[Some(LayerKind::Dense), None, Some(LayerKind::Sparse)], d);
    assert_eq!(c.set_tile(4, tile(1, 2, 1, red())), Ok(()));
    let (indices, colors) = c.tiles_to_renderer_parts(d);
    assert_eq!(indices.len(), 15 * 3 * 2);
    assert_eq!(colors.len(), 15 * 3 * 2);
    // z 1, sprite order 2 is run 1 * 3 + 2 = 5.
    assert_eq!(indices[5 * 15 + 4], 1);
    assert_eq!(colors[5 * 15 + 4], red());
    assert_eq!(indices.iter().filter(|i| **i != 0).count(), 1);
}

#[test]
fn swap_twice_restores_slots() {
    let d = dims(2, 1, 2);
    let mut c = chunk(&[Some(LayerKind::Dense), Some(LayerKind::Sparse), None], d);
    assert_eq!(c.set_tile(0, tile(0, 0, 1, red())), Ok(()));
    assert_eq!(c.set_tile(1, tile(1, 1, 2, green())), Ok(()));
    let original = c.tiles_to_renderer_parts(d);
    assert_eq!(c.swap_sprite_order(0, 1), Ok(()));
    assert_eq!(c.get_tile(0, 1, 0), Some(&RawTile { index: 1, color: red() }));
    assert_eq!(c.get_tile(1, 0, 1), Some(&RawTile { index: 2, color: green() }));
    assert_eq!(c.get_tile(1, 0, 0), None);
    assert_ne!(c.tiles_to_renderer_parts(d), original);
    assert_eq!(c.swap_sprite_order(0, 1), Ok(()));
    assert_eq!(c.tiles_to_renderer_parts(d), original);
    assert_eq!(c.get_tile(0, 0, 0), Some(&RawTile { index: 1, color: red() }));
    assert_eq!(c.swap_sprite_order(0, 3), Err(ChunkError::LayerIndexOutOfBounds));
    assert_eq!(c.swap_sprite_order(2, 2), Ok(()));
    assert_eq!(c.tiles_to_renderer_parts(d), original);
}

#[test]
fn add_layer_contributes_placeholders() {
    let d = dims(2, 2, 2);
    let mut c = chunk(&[Some(LayerKind::Dense), Some(LayerKind::Sparse)], d);
    for z in 0..2u32 {
        for i in 0..4 {
            assert_eq!(c.set_tile(i, tile(z, 0, 3, red())), Ok(()));
            assert_eq!(c.set_tile(i, tile(z, 1, 4, green())), Ok(()));
        }
    }
    assert_eq!(c.add_layer(&LayerKind::Sparse, 0, d), Ok(()));
    assert_eq!(c.add_layer(&LayerKind::Dense, 1, d), Ok(()));
    let (indices, colors) = c.tiles_to_renderer_parts(d);
    assert_eq!(indices, vec![0; 16]);
    assert_eq!(colors, vec![Rgba::transparent(); 16]);
    assert_eq!(c.get_tile(0, 0, 0), None);
    assert_eq!(c.get_tile(0, 1, 1), Some(&RawTile::placeholder()));
    assert_eq!(c.add_layer(&LayerKind::Dense, 2, d), Err(ChunkError::LayerIndexOutOfBounds));
}

#[test]
fn new_allocates_depth_levels() {
    let d = dims(1, 2, 3);
    let c = chunk(&[None, Some(LayerKind::Dense)], d);
    assert_eq!(c.point(), Point2 { x: 3, y: -2 });
    let (indices, _) = c.tiles_to_renderer_parts(d);
    assert_eq!(indices.len(), 3 * 2 * 2);
    for z in 0..3 {
        assert_eq!(c.get_tile(0, 0, z), None);
        assert_eq!(c.get_tile(1, 1, z), Some(&RawTile::placeholder()));
    }
    assert_eq!(c.get_tile(0, 1, 3), None);
    assert_eq!(c.get_tile(0, 2, 0), None);
}

#[test]
fn move_sprite_order_into_empty_slot() {
    let d = dims(2, 2, 2);
    let mut c = chunk(&[Some(LayerKind::Sparse), None], d);
    assert_eq!(c.set_tile(3, tile(1, 0, 7, red())), Ok(()));
    assert_eq!(c.move_sprite_order(0, 1), Ok(()));
    assert_eq!(c.get_tile(3, 1, 1), Some(&RawTile { index: 7, color: red() }));
    assert_eq!(c.get_tile(3, 0, 1), None);
    assert_eq!(c.move_sprite_order(0, 1), Err(ChunkError::MoveConflict));
    assert_eq!(c.get_tile(3, 1, 1), Some(&RawTile { index: 7, color: red() }));
    assert_eq!(c.move_sprite_order(1, 1), Ok(()));
    assert_eq!(c.move_sprite_order(1, 2), Err(ChunkError::LayerIndexOutOfBounds));
}

#[test]
fn move_sprite_order_refuses_dense_target() {
    let d = dims(2, 2, 1);
    let mut c = chunk(&[None, Some(LayerKind::Dense)], d);
    assert_eq!(c.move_sprite_order(0, 1), Err(ChunkError::MoveConflict));
    assert_eq!(c.move_sprite_order(1, 0), Ok(()));
    assert_eq!(c.get_tile(0, 0, 0), Some(&RawTile::placeholder()));
    assert_eq!(c.get_tile(0, 1, 0), None);
}

#[test]
fn tile_indices_of_both_kinds() {
    let d = dims(3, 1, 1);
    let mut c = chunk(&[Some(LayerKind::Dense), Some(LayerKind::Sparse)], d);
    assert_eq!(c.get_tile_indices(0, 0), Some(vec![0, 1, 2]));
    assert_eq!(c.get_tile_indices(1, 0), Some(vec![]));
    assert_eq!(c.set_tile(2, tile(0, 1, 1, red())), Ok(()));
    assert_eq!(c.set_tile(0, tile(0, 1, 1, red())), Ok(()));
    let mut sparse = c.get_tile_indices(1, 0).unwrap();
    sparse.sort();
    assert_eq!(sparse, vec![0, 2]);
    assert_eq!(c.get_tile_indices(2, 0), None);
    assert_eq!(c.get_tile_indices(0, 1), None);
}

#[test]
fn entity_is_taken_once() {
    let mut c = chunk(&[None], dims(1, 1, 1));
    assert_eq!(c.take_entity(), None);
    c.add_entity(Entity { id: 42 });
    assert_eq!(c.take_entity(), Some(Entity { id: 42 }));
    assert_eq!(c.take_entity(), None);
}

#[test]
fn collision_entities_by_index() {
    let mut c = chunk(&[None], dims(1, 1, 1));
    assert_eq!(c.get_collision_entity(5), None);
    assert_eq!(c.insert_collision_entity(5, Entity { id: 1 }), None);
    assert_eq!(c.insert_collision_entity(5, Entity { id: 2 }), Some(Entity { id: 1 }));
    assert_eq!(c.get_collision_entity(5), Some(Entity { id: 2 }));
    assert_eq!(c.get_collision_entity(6), None);
}

#[test]
fn set_mesh_keeps_layers() {
    let d = dims(1, 1, 1);
    let mut c = chunk(&[Some(LayerKind::Dense)], d);
    assert_eq!(c.set_tile(0, tile(0, 0, 3, red())), Ok(()));
    c.set_mesh(MeshHandle { id: 9 });
    assert_eq!(c.get_tile(0, 0, 0), Some(&RawTile { index: 3, color: red() }));
}

#[test]
fn area_is_width_times_height() {
    assert_eq!(dims(7, 3, 2).area(), 21);
    assert_eq!(dims(0, 3, 2).area(), 0);
}
