use vstd::prelude::*;
use std::collections::BTreeMap;

use crate::layer::{lemma_fresh_attributes, placeholders, LayerKind, LayerKindInner, SpriteLayer};
use crate::tile::{Dimension3, Entity, MeshHandle, Point2, RawTile, Rgba, Tile};

verus! {

broadcast use vstd::std_specs::btree::group_btree_axioms;

/// Why a chunk refused an operation. A refused operation changes nothing.
#[derive(Clone, Copy, Debug, PartialEq, Eq, Structural)]
pub enum ChunkError {
    /// The sprite order is not below the chunk's number of layer slots.
    LayerIndexOutOfBounds,
    /// The z-depth is not below the chunk's depth.
    LayerMissing,
    /// The cell index lies outside the slots of a dense layer.
    TileIndexOutOfBounds,
    /// Moving the layer would overwrite the layer that holds the target slot.
    MoveConflict,
}

/// A rectangular part of the tile grid: for each z-depth, one layer per sprite order.
pub struct Chunk {
    /// The grid point of the chunk.
    point: Point2,
    /// The number of sprite-order slots of every z-level.
    layer_count: usize,
    /// The layers, by z-depth and then by sprite order.
    z_layers: Vec<Vec<SpriteLayer>>,
    /// The mesh that the chunk is rendered with.
    mesh: MeshHandle,
    /// The render entity of the chunk, while it is spawned.
    entity: Option<Entity>,
    /// The collision entities, by cell index.
    collision_entities: BTreeMap<usize, Entity>,
}

/// The contribution of one z-level to the renderer: its layers' attributes in
/// sprite order, one after the other.
pub open spec fn row_parts(row: Seq<LayerKindInner>, area: nat) -> Seq<RawTile>
    decreases row.len(),
{
    if row.len() == 0 {
        Seq::empty()
    } else {
        row_parts(row.drop_last(), area) + row.last().attributes(area)
    }
}

/// The renderer's tiles for a whole chunk: its z-levels' contributions in order.
pub open spec fn all_parts(rows: Seq<Seq<LayerKindInner>>, area: nat) -> Seq<RawTile>
    decreases rows.len(),
{
    if rows.len() == 0 {
        Seq::empty()
    } else {
        all_parts(rows.drop_last(), area) + row_parts(rows.last(), area)
    }
}

/// The layer kind that a slot is created with: the given one, or sparse.
pub open spec fn kind_or_sparse(k: Option<LayerKind>) -> LayerKind {
    match k {
        Some(k) => k,
        None => LayerKind::Sparse,
    }
}

/// The position that slot `s` takes when slots `a` and `b` trade places.
pub open spec fn swap_index(s: int, a: int, b: int) -> int {
    if s == a {
        b
    } else if s == b {
        a
    } else {
        s
    }
}

/// The layers with slots `a` and `b` traded at every z-level.
pub open spec fn swap_rows(rows: Seq<Seq<LayerKindInner>>, a: int, b: int) -> Seq<Seq<LayerKindInner>> {
    rows.map_values(|row: Seq<LayerKindInner>| Seq::new(row.len(), |s: int| row[swap_index(s, a, b)]))
}

impl Chunk {
    /// Every z-level has `layer_count` slots.
    pub closed spec fn wf(self) -> bool {
        forall|z: int| 0 <= z < self.z_layers@.len() ==> #[trigger] self.z_layers@[z]@.len() == self.layer_count
    }

    /// The number of z-levels.
    pub closed spec fn depth(self) -> nat {
        self.z_layers@.len()
    }

    /// The number of sprite-order slots per z-level.
    pub closed spec fn layer_count_spec(self) -> nat {
        self.layer_count as nat
    }

    /// The storage at a z-depth and a sprite order.
    pub closed spec fn slot(self, z: int, so: int) -> LayerKindInner {
        self.z_layers@[z]@[so].inner
    }

    /// All the storages, by z-depth and then by sprite order.
    pub open spec fn rows(self) -> Seq<Seq<LayerKindInner>> {
        Seq::new(self.depth(), |z: int| Seq::new(self.layer_count_spec(), |so: int| self.slot(z, so)))
    }

    pub open spec fn in_range(self, z: int, so: int) -> bool {
        0 <= z < self.depth() && 0 <= so < self.layer_count_spec()
    }

    /// The tile at a cell of a layer, if the layer exists and holds one there.
    pub open spec fn tile_at(self, index: int, so: int, z: int) -> Option<RawTile> {
        if self.in_range(z, so) {
            self.slot(z, so).tile_at(index)
        } else {
            None
        }
    }

    pub closed spec fn point_spec(self) -> Point2 {
        self.point
    }

    pub closed spec fn mesh_spec(self) -> MeshHandle {
        self.mesh
    }

    pub closed spec fn entity_spec(self) -> Option<Entity> {
        self.entity
    }

    pub closed spec fn collisions(self) -> Map<usize, Entity> {
        self.collision_entities@
    }

    /// Everything but the layers is the same in `self` and `other`, and both
    /// have the same shape.
    pub open spec fn same_frame(self, other: Chunk) -> bool {
        &&& self.point_spec() == other.point_spec()
        &&& self.mesh_spec() == other.mesh_spec()
        &&& self.entity_spec() == other.entity_spec()
        &&& self.collisions() == other.collisions()
        &&& self.depth() == other.depth()
        &&& self.layer_count_spec() == other.layer_count_spec()
    }

    /// The two chunks hold the same storage in every slot but those of sprite order `so`.
    pub open spec fn same_slots_except(self, other: Chunk, so: int) -> bool {
        forall|z: int, s: int| self.in_range(z, s) && s != so ==> #[trigger] other.slot(z, s) == self.slot(z, s)
    }

    /// Builds a chunk of `dimensions.depth` z-levels with one slot per entry of
    /// `layers`: a fresh layer of the given kind, or an empty sparse one for `None`.
    pub fn new(point: Point2, layers: &[Option<LayerKind>], dimensions: Dimension3, mesh: MeshHandle) -> (c: Chunk)
        requires
            dimensions.area_spec() <= usize::MAX,
        ensures
            c.wf(),
            c.depth() == dimensions.depth,
            c.layer_count_spec() == layers@.len(),
            forall|z: int, so: int| c.in_range(z, so) ==> (#[trigger] c.slot(z, so)).is_fresh(
                kind_or_sparse(layers@[so]), dimensions.area_spec()),
            c.point_spec() == point,
            c.mesh_spec() == mesh,
            c.entity_spec() is None,
            c.collisions() == Map::<usize, Entity>::empty(),
    {
        let area = dimensions.area();
        let depth = dimensions.depth as usize;
        let n = layers.len();
        let mut z_layers: Vec<Vec<SpriteLayer>> = Vec::with_capacity(depth);
        let mut z: usize = 0;
        while z < depth
            invariant
                z <= depth,
                n == layers@.len(),
                z_layers@.len() == z,
                forall|zz: int| 0 <= zz < z ==> #[trigger] z_layers@[zz]@.len() == n,
                forall|zz: int, so: int| 0 <= zz < z && 0 <= so < n ==> #[trigger] z_layers@[zz]@[so].inner.is_fresh(
                    kind_or_sparse(layers@[so]), area as nat),
            decreases depth - z,
        {
            let mut row: Vec<SpriteLayer> = Vec::with_capacity(n);
            let mut so: usize = 0;
            while so < n
                invariant
                    so <= n,
                    n == layers@.len(),
                    row@.len() == so,
                    forall|s: int| 0 <= s < so ==> #[trigger] row@[s].inner.is_fresh(kind_or_sparse(layers@[s]), area as nat),
                decreases n - so,
            {
                let kind = match layers[so] {
                    Some(k) => k,
                    None => LayerKind::Sparse,
                };
                row.push(SpriteLayer { inner: LayerKindInner::new(kind, area), entity: None });
                so = so + 1;
            }
            z_layers.push(row);
            z = z + 1;
        }
        Chunk {
            point,
            layer_count: n,
            z_layers,
            mesh,
            entity: None,
            collision_entities: BTreeMap::new(),
        }
    }
    /// Replaces the layer of sprite order `sprite_order` at every z-level by a
    /// fresh one of the given kind, discarding what it held.
    pub fn add_layer(&mut self, kind: &LayerKind, sprite_order: usize, dimensions: Dimension3) -> (r: Result<(), ChunkError>)
        requires
            old(self).wf(),
            dimensions.area_spec() <= usize::MAX,
        ensures
            final(self).wf(),
            final(self).same_frame(*old(self)),
            sprite_order >= old(self).layer_count_spec() ==> r == Err::<(), ChunkError>(ChunkError::LayerIndexOutOfBounds)
                && *final(self) == *old(self),
            sprite_order < old(self).layer_count_spec() ==> r is Ok
                && old(self).same_slots_except(*final(self), sprite_order as int)
                && forall|z: int| 0 <= z < old(self).depth() ==> (#[trigger] final(self).slot(z, sprite_order as int)).is_fresh(
                    *kind, dimensions.area_spec()),
    {
        if sprite_order >= self.layer_count {
            return Err(ChunkError::LayerIndexOutOfBounds);
        }
        let area = dimensions.area();
        let depth = self.z_layers.len();
        let mut z: usize = 0;
        while z < depth
            invariant
                z <= depth,
                depth == old(self).depth(),
                sprite_order < self.layer_count,
                self.wf(),
                self.same_frame(*old(self)),
                old(self).same_slots_except(*self, sprite_order as int),
                forall|zz: int| 0 <= zz < z ==> (#[trigger] self.slot(zz, sprite_order as int)).is_fresh(*kind, area as nat),
            decreases depth - z,
        {
            let layer = SpriteLayer { inner: LayerKindInner::new(*kind, area), entity: None };
            let ghost before = *self;
            self.z_layers[z][sprite_order] = layer;
            proof {
                assert forall|zz: int, s: int| before.in_range(zz, s) && (zz != z || s != sprite_order) implies
                    #[trigger] self.slot(zz, s) == before.slot(zz, s) by {
                    if zz != z {
                        assert(self.z_layers@[zz] == before.z_layers@[zz]);
                    }
                }
                assert forall|zz: int| 0 <= zz < z + 1 implies (#[trigger] self.slot(zz, sprite_order as int)).is_fresh(*kind, area as nat) by {
                    if zz != z {
                        assert(self.z_layers@[zz] == before.z_layers@[zz]);
                    }
                }
                assert forall|zz: int| 0 <= zz < self.z_layers@.len() implies #[trigger] self.z_layers@[zz]@.len() == self.layer_count by {
                    if zz != z {
                        assert(self.z_layers@[zz] == before.z_layers@[zz]);
                    }
                }
            }
            z = z + 1;
        }
        Ok(())
    }

    /// Empties the layer of sprite order `sprite_order` at every z-level: the
    /// slot stays, holding an empty sparse layer.
    pub fn remove_layer(&mut self, sprite_order: usize) -> (r: Result<(), ChunkError>)
        requires
            old(self).wf(),
        ensures
            final(self).wf(),
            final(self).same_frame(*old(self)),
            sprite_order >= old(self).layer_count_spec() ==> r == Err::<(), ChunkError>(ChunkError::LayerIndexOutOfBounds)
                && *final(self) == *old(self),
            sprite_order < old(self).layer_count_spec() ==> r is Ok
                && old(self).same_slots_except(*final(self), sprite_order as int)
                && forall|z: int| 0 <= z < old(self).depth() ==> (#[trigger] final(self).slot(z, sprite_order as int)).is_fresh(
                    LayerKind::Sparse, 0),
    {
        if sprite_order >= self.layer_count {
            return Err(ChunkError::LayerIndexOutOfBounds);
        }
        let depth = self.z_layers.len();
        let mut z: usize = 0;
        while z < depth
            invariant
                z <= depth,
                depth == old(self).depth(),
                sprite_order < self.layer_count,
                self.wf(),
                self.same_frame(*old(self)),
                old(self).same_slots_except(*self, sprite_order as int),
                forall|zz: int| 0 <= zz < z ==> (#[trigger] self.slot(zz, sprite_order as int)).is_fresh(LayerKind::Sparse, 0),
            decreases depth - z,
        {
            let layer = SpriteLayer::vacant();
            let ghost before = *self;
            self.z_layers[z][sprite_order] = layer;
            proof {
                assert forall|zz: int, s: int| before.in_range(zz, s) && (zz != z || s != sprite_order) implies
                    #[trigger] self.slot(zz, s) == before.slot(zz, s) by {
                    if zz != z {
                        assert(self.z_layers@[zz] == before.z_layers@[zz]);
                    }
                }
                assert forall|zz: int| 0 <= zz < z + 1 implies (#[trigger] self.slot(zz, sprite_order as int)).is_fresh(LayerKind::Sparse, 0) by {
                    if zz != z {
                        assert(self.z_layers@[zz] == before.z_layers@[zz]);
                    }
                }
                assert forall|zz: int| 0 <= zz < self.z_layers@.len() implies #[trigger] self.z_layers@[zz]@.len() == self.layer_count by {
                    if zz != z {
                        assert(self.z_layers@[zz] == before.z_layers@[zz]);
                    }
                }
            }
            z = z + 1;
        }
        Ok(())
    }

    /// Checks an address: the sprite order first, then the z-depth, then the
    /// cell index against the layer's slots.
    pub open spec fn address_error(self, index: int, so: int, z: int) -> Option<ChunkError> {
        if !(0 <= so < self.layer_count_spec()) {
            Some(ChunkError::LayerIndexOutOfBounds)
        } else if !(0 <= z < self.depth()) {
            Some(ChunkError::LayerMissing)
        } else if !self.slot(z, so).accepts(index) {
            Some(ChunkError::TileIndexOutOfBounds)
        } else {
            None
        }
    }

    /// Computes `address_error`.
    fn check_address(&self, index: usize, so: usize, z: usize) -> (r: Option<ChunkError>)
        requires
            self.wf(),
        ensures
            r == self.address_error(index as int, so as int, z as int),
    {
        if so >= self.layer_count {
            Some(ChunkError::LayerIndexOutOfBounds)
        } else if z >= self.z_layers.len() {
            Some(ChunkError::LayerMissing)
        } else {
            match &self.z_layers[z][so].inner {
                LayerKindInner::Dense(d) => if index < d.tiles.len() {
                    None
                } else {
                    Some(ChunkError::TileIndexOutOfBounds)
                },
                LayerKindInner::Sparse(_) => None,
            }
        }
    }

    /// After a write at one cell of one layer: that cell holds `t`, every
    /// other cell and layer is as before, and each layer keeps its kind and size.
    pub open spec fn written(self, before: Chunk, index: int, so: int, z: int, t: Option<RawTile>) -> bool {
        &&& forall|zz: int, s: int| before.in_range(zz, s) && (zz != z || s != so) ==> #[trigger] self.slot(zz, s) == before.slot(zz, s)
        &&& LayerKindInner::written(before.slot(z, so), self.slot(z, so), index, t)
    }

    /// Writes the tile at cell `index` of the layer that `tile` names by its
    /// z-depth and sprite order. An address that `address_error` faults is
    /// refused with that error and changes nothing; a z-depth beyond the
    /// chunk is reported as `LayerMissing` rather than ignored.
    pub fn set_tile(&mut self, index: usize, tile: Tile) -> (r: Result<(), ChunkError>)
        requires
            old(self).wf(),
        ensures
            final(self).wf(),
            final(self).same_frame(*old(self)),
            match old(self).address_error(index as int, tile.sprite_order as int, tile.point.z as int) {
                Some(e) => r == Err::<(), ChunkError>(e) && *final(self) == *old(self),
                None => r is Ok && final(self).written(*old(self), index as int, tile.sprite_order as int,
                    tile.point.z as int, Some(RawTile { index: tile.sprite_index, color: tile.tint })),
            },
    {
        let z = tile.point.z as usize;
        match self.check_address(index, tile.sprite_order, z) {
            Some(e) => Err(e),
            None => {
                let raw = RawTile { index: tile.sprite_index, color: tile.tint };
                self.z_layers[z][tile.sprite_order].inner.set_tile(index, raw);
                Ok(())
            },
        }
    }

    /// Clears cell `index` of a layer: a dense slot goes back to the
    /// placeholder, a sparse entry is deleted.
    pub fn remove_tile(&mut self, index: usize, sprite_order: usize, z_depth: usize) -> (r: Result<(), ChunkError>)
        requires
            old(self).wf(),
        ensures
            final(self).wf(),
            final(self).same_frame(*old(self)),
            match old(self).address_error(index as int, sprite_order as int, z_depth as int) {
                Some(e) => r == Err::<(), ChunkError>(e) && *final(self) == *old(self),
                None => r is Ok && final(self).written(*old(self), index as int, sprite_order as int, z_depth as int,
                    LayerKindInner::cleared(old(self).slot(z_depth as int, sprite_order as int).kind())),
            },
    {
        match self.check_address(index, sprite_order, z_depth) {
            Some(e) => Err(e),
            None => {
                self.z_layers[z_depth][sprite_order].inner.remove_tile(index);
                Ok(())
            },
        }
    }
    /// Trades slots `a` and `b` at every z-level.
    fn swap_slots(&mut self, a: usize, b: usize)
        requires
            old(self).wf(),
            a < old(self).layer_count_spec(),
            b < old(self).layer_count_spec(),
        ensures
            final(self).wf(),
            final(self).same_frame(*old(self)),
            final(self).rows() == swap_rows(old(self).rows(), a as int, b as int),
            forall|z: int, s: int| old(self).in_range(z, s) ==> #[trigger] final(self).slot(z, s) == old(self).slot(
                z, swap_index(s, a as int, b as int)),
    {
        if a == b {
            assert(self.rows() =~~= swap_rows(old(self).rows(), a as int, b as int));
            return;
        }
        let depth = self.z_layers.len();
        let mut z: usize = 0;
        while z < depth
            invariant
                z <= depth,
                depth == old(self).depth(),
                a != b,
                a < self.layer_count,
                b < self.layer_count,
                self.wf(),
                self.same_frame(*old(self)),
                forall|zz: int, s: int| old(self).in_range(zz, s) ==> #[trigger] self.slot(zz, s) == if zz < z {
                    old(self).slot(zz, swap_index(s, a as int, b as int))
                } else {
                    old(self).slot(zz, s)
                },
            decreases depth - z,
        {
            let ghost before = *self;
            let ghost row0 = self.z_layers@[z as int]@;
            let mut tmp = SpriteLayer::vacant();
            let ghost t0 = tmp;
            std::mem::swap(&mut tmp, &mut self.z_layers[z][a]);
            assert(self.z_layers@[z as int]@ == row0.update(a as int, t0));
            assert(tmp == row0[a as int]);
            std::mem::swap(&mut tmp, &mut self.z_layers[z][b]);
            assert(self.z_layers@[z as int]@ == row0.update(a as int, t0).update(b as int, row0[a as int]));
            std::mem::swap(&mut tmp, &mut self.z_layers[z][a]);
            proof {
                assert(self.z_layers@[z as int]@ =~= row0.update(a as int, row0[b as int]).update(b as int, row0[a as int]));
                assert forall|zz: int| 0 <= zz < self.z_layers@.len() && zz != z implies
                    #[trigger] self.z_layers@[zz] == before.z_layers@[zz] by {}
                assert forall|zz: int| 0 <= zz < self.z_layers@.len() implies #[trigger] self.z_layers@[zz]@.len() == self.layer_count by {
                    if zz != z {
                        assert(self.z_layers@[zz] == before.z_layers@[zz]);
                    }
                }
                assert forall|zz: int, s: int| old(self).in_range(zz, s) implies #[trigger] self.slot(zz, s) == if zz < z + 1 {
                    old(self).slot(zz, swap_index(s, a as int, b as int))
                } else {
                    old(self).slot(zz, s)
                } by {
                    if zz != z {
                        assert(self.z_layers@[zz] == before.z_layers@[zz]);
                        assert(self.slot(zz, s) == before.slot(zz, s));
                    } else {
                        let t = swap_index(s, a as int, b as int);
                        assert(old(self).in_range(zz, t));
                        assert(before.slot(zz, t) == old(self).slot(zz, t));
                        assert(self.z_layers@[zz]@[s] == row0[t]);
                        assert(before.z_layers@[zz]@ == row0);
                    }
                }
            }
            z = z + 1;
        }
        assert(self.rows() =~~= swap_rows(old(self).rows(), a as int, b as int));
    }

    /// Trades the layers of sprite orders `from` and `to` at every z-level.
    pub fn swap_sprite_order(&mut self, from_sprite_order: usize, to_sprite_order: usize) -> (r: Result<(), ChunkError>)
        requires
            old(self).wf(),
        ensures
            final(self).wf(),
            final(self).same_frame(*old(self)),
            from_sprite_order < old(self).layer_count_spec() && to_sprite_order < old(self).layer_count_spec() ==> r is Ok
                && final(self).rows() == swap_rows(old(self).rows(), from_sprite_order as int, to_sprite_order as int)
                && forall|z: int, s: int| old(self).in_range(z, s) ==> #[trigger] final(self).slot(z, s) == old(self).slot(
                    z, swap_index(s, from_sprite_order as int, to_sprite_order as int)),
            !(from_sprite_order < old(self).layer_count_spec() && to_sprite_order < old(self).layer_count_spec()) ==>
                r == Err::<(), ChunkError>(ChunkError::LayerIndexOutOfBounds) && *final(self) == *old(self),
    {
        if from_sprite_order >= self.layer_count || to_sprite_order >= self.layer_count {
            return Err(ChunkError::LayerIndexOutOfBounds);
        }
        self.swap_slots(from_sprite_order, to_sprite_order);
        Ok(())
    }

    /// Whether moving a layer into slot `to` would overwrite a layer that holds
    /// something, at some z-level.
    pub open spec fn move_conflicts(self, from: int, to: int) -> bool {
        from != to && exists|z: int| 0 <= z < self.depth() && !(#[trigger] self.slot(z, to)).is_vacant()
    }

    /// Moves the layers of sprite order `from` to sprite order `to` at every
    /// z-level, the empty layers of `to` taking the place of `from`. Refused
    /// when `to` holds something at some z-level.
    pub fn move_sprite_order(&mut self, from_sprite_order: usize, to_sprite_order: usize) -> (r: Result<(), ChunkError>)
        requires
            old(self).wf(),
        ensures
            final(self).wf(),
            final(self).same_frame(*old(self)),
            !(from_sprite_order < old(self).layer_count_spec() && to_sprite_order < old(self).layer_count_spec()) ==>
                r == Err::<(), ChunkError>(ChunkError::LayerIndexOutOfBounds) && *final(self) == *old(self),
            from_sprite_order < old(self).layer_count_spec() && to_sprite_order < old(self).layer_count_spec()
                && old(self).move_conflicts(from_sprite_order as int, to_sprite_order as int) ==>
                r == Err::<(), ChunkError>(ChunkError::MoveConflict) && *final(self) == *old(self),
            from_sprite_order < old(self).layer_count_spec() && to_sprite_order < old(self).layer_count_spec()
                && !old(self).move_conflicts(from_sprite_order as int, to_sprite_order as int) ==> r is Ok
                && final(self).rows() == swap_rows(old(self).rows(), from_sprite_order as int, to_sprite_order as int)
                && forall|z: int, s: int| old(self).in_range(z, s) ==> #[trigger] final(self).slot(z, s) == old(self).slot(
                    z, swap_index(s, from_sprite_order as int, to_sprite_order as int)),
    {
        if from_sprite_order >= self.layer_count || to_sprite_order >= self.layer_count {
            return Err(ChunkError::LayerIndexOutOfBounds);
        }
        if from_sprite_order != to_sprite_order {
            let depth = self.z_layers.len();
            let mut z: usize = 0;
            while z < depth
                invariant
                    z <= depth,
                    depth == self.depth(),
                    to_sprite_order < self.layer_count,
                    self.wf(),
                    *self == *old(self),
                    from_sprite_order < self.layer_count,
                    from_sprite_order != to_sprite_order,
                    forall|zz: int| 0 <= zz < z ==> (#[trigger] self.slot(zz, to_sprite_order as int)).is_vacant(),
                decreases depth - z,
            {
                if !self.z_layers[z][to_sprite_order].inner.is_vacant_exec() {
                    assert(!old(self).slot(z as int, to_sprite_order as int).is_vacant());
                    assert(0 <= z < old(self).depth());
                    assert(from_sprite_order != to_sprite_order);
                    assert(old(self).move_conflicts(from_sprite_order as int, to_sprite_order as int));
                    return Err(ChunkError::MoveConflict);
                }
                z = z + 1;
            }
        }
        self.swap_slots(from_sprite_order, to_sprite_order);
        Ok(())
    }
    /// The grid point of the chunk.
    pub fn point(&self) -> (r: Point2)
        ensures
            r == self.point_spec(),
    {
        self.point
    }

    /// Replaces the mesh that the chunk is rendered with.
    pub fn set_mesh(&mut self, mesh: MeshHandle)
        ensures
            final(self).mesh_spec() == mesh,
            final(self).point_spec() == old(self).point_spec(),
            final(self).entity_spec() == old(self).entity_spec(),
            final(self).collisions() == old(self).collisions(),
            final(self).depth() == old(self).depth(),
            final(self).layer_count_spec() == old(self).layer_count_spec(),
            final(self).wf() == old(self).wf(),
            forall|z: int, so: int| #[trigger] final(self).slot(z, so) == old(self).slot(z, so),
    {
        self.mesh = mesh;
    }

    /// Records the render entity of the chunk once it is spawned.
    pub fn add_entity(&mut self, entity: Entity)
        ensures
            final(self).entity_spec() == Some(entity),
            final(self).point_spec() == old(self).point_spec(),
            final(self).mesh_spec() == old(self).mesh_spec(),
            final(self).collisions() == old(self).collisions(),
            final(self).depth() == old(self).depth(),
            final(self).layer_count_spec() == old(self).layer_count_spec(),
            final(self).wf() == old(self).wf(),
            forall|z: int, so: int| #[trigger] final(self).slot(z, so) == old(self).slot(z, so),
    {
        self.entity = Some(entity);
    }

    /// Hands out the render entity, if any, and forgets it, so that it is
    /// despawned once.
    pub fn take_entity(&mut self) -> (r: Option<Entity>)
        ensures
            r == old(self).entity_spec(),
            final(self).entity_spec() is None,
            final(self).point_spec() == old(self).point_spec(),
            final(self).mesh_spec() == old(self).mesh_spec(),
            final(self).collisions() == old(self).collisions(),
            final(self).depth() == old(self).depth(),
            final(self).layer_count_spec() == old(self).layer_count_spec(),
            final(self).wf() == old(self).wf(),
            forall|z: int, so: int| #[trigger] final(self).slot(z, so) == old(self).slot(z, so),
    {
        self.entity.take()
    }

    /// Binds a collision entity to a cell index and returns the one it replaces.
    pub fn insert_collision_entity(&mut self, index: usize, entity: Entity) -> (r: Option<Entity>)
        ensures
            final(self).collisions() == old(self).collisions().insert(index, entity),
            r == (if old(self).collisions().contains_key(index) {
                Some(old(self).collisions()[index])
            } else {
                None::<Entity>
            }),
            final(self).point_spec() == old(self).point_spec(),
            final(self).mesh_spec() == old(self).mesh_spec(),
            final(self).entity_spec() == old(self).entity_spec(),
            final(self).depth() == old(self).depth(),
            final(self).layer_count_spec() == old(self).layer_count_spec(),
            final(self).wf() == old(self).wf(),
            forall|z: int, so: int| #[trigger] final(self).slot(z, so) == old(self).slot(z, so),
    {
        self.collision_entities.insert(index, entity)
    }

    /// The collision entity bound to a cell index, if any.
    pub fn get_collision_entity(&self, index: usize) -> (r: Option<Entity>)
        ensures
            r == (if self.collisions().contains_key(index) {
                Some(self.collisions()[index])
            } else {
                None::<Entity>
            }),
    {
        match self.collision_entities.get(&index) {
            Some(e) => Some(*e),
            None => None,
        }
    }

    /// The tile at cell `index` of the layer at `sprite_order` and `z_depth`;
    /// nothing where the layer does not exist or holds no tile there.
    pub fn get_tile(&self, index: usize, sprite_order: usize, z_depth: usize) -> (r: Option<&RawTile>)
        requires
            self.wf(),
        ensures
            match r {
                Some(t) => self.tile_at(index as int, sprite_order as int, z_depth as int) == Some(*t),
                None => self.tile_at(index as int, sprite_order as int, z_depth as int) is None,
            },
    {
        if sprite_order >= self.layer_count || z_depth >= self.z_layers.len() {
            None
        } else {
            self.z_layers[z_depth][sprite_order].inner.get_tile(index)
        }
    }

    /// The cell indices that hold a tile in the layer at `sprite_order` and
    /// `z_depth`, each once; nothing where the layer does not exist.
    pub fn get_tile_indices(&self, sprite_order: usize, z_depth: usize) -> (r: Option<Vec<usize>>)
        requires
            self.wf(),
        ensures
            !self.in_range(z_depth as int, sprite_order as int) ==> r is None,
            self.in_range(z_depth as int, sprite_order as int) ==> (r matches Some(v) && v@.no_duplicates()
                && forall|i: usize| v@.contains(i) <==> #[trigger] self.tile_at(i as int, sprite_order as int, z_depth as int) is Some),
    {
        if sprite_order >= self.layer_count || z_depth >= self.z_layers.len() {
            None
        } else {
            Some(self.z_layers[z_depth][sprite_order].inner.get_tile_indices())
        }
    }

    /// The renderer's buffers for a chunk of `dimensions.area()` cells: every
    /// layer's attributes, by z-depth and then by sprite order, one after the
    /// other, split into sprite indices and tints.
    pub fn tiles_to_renderer_parts(&self, dimensions: Dimension3) -> (r: (Vec<usize>, Vec<Rgba>))
        requires
            self.wf(),
            dimensions.area_spec() <= usize::MAX,
        ensures
            r.0@ == all_parts(self.rows(), dimensions.area_spec()).map_values(|t: RawTile| t.index),
            r.1@ == all_parts(self.rows(), dimensions.area_spec()).map_values(|t: RawTile| t.color),
            r.0@.len() == self.depth() * (self.layer_count_spec() * dimensions.area_spec()),
    {
        let area = dimensions.area();
        let ghost rows = self.rows();
        let mut tile_indices: Vec<usize> = Vec::new();
        let mut tile_colors: Vec<Rgba> = Vec::new();
        let depth = self.z_layers.len();
        let mut z: usize = 0;
        while z < depth
            invariant
                z <= depth,
                depth == rows.len(),
                rows == self.rows(),
                self.wf(),
                tile_indices@ == all_parts(rows.take(z as int), area as nat).map_values(|t: RawTile| t.index),
                tile_colors@ == all_parts(rows.take(z as int), area as nat).map_values(|t: RawTile| t.color),
            decreases depth - z,
        {
            let row = &self.z_layers[z];
            let n = row.len();
            let ghost done = all_parts(rows.take(z as int), area as nat);
            let mut so: usize = 0;
            while so < n
                invariant
                    so <= n,
                    z < depth,
                    depth == rows.len(),
                    rows == self.rows(),
                    self.wf(),
                    row == self.z_layers@[z as int],
                    n == self.layer_count,
                    tile_indices@ == (done + row_parts(rows[z as int].take(so as int), area as nat)).map_values(|t: RawTile| t.index),
                    tile_colors@ == (done + row_parts(rows[z as int].take(so as int), area as nat)).map_values(|t: RawTile| t.color),
                decreases n - so,
            {
                let (mut indices, mut colors) = row[so].inner.tiles_to_attributes(area);
                let ghost prev = done + row_parts(rows[z as int].take(so as int), area as nat);
                let ghost layer = rows[z as int][so as int];
                tile_indices.append(&mut indices);
                tile_colors.append(&mut colors);
                proof {
                    assert(rows[z as int].take(so as int + 1).drop_last() =~= rows[z as int].take(so as int));
                    assert(layer == self.slot(z as int, so as int));
                    let next = done + row_parts(rows[z as int].take(so as int + 1), area as nat);
                    assert(next =~= prev + layer.attributes(area as nat));
                    assert(tile_indices@ =~= next.map_values(|t: RawTile| t.index));
                    assert(tile_colors@ =~= next.map_values(|t: RawTile| t.color));
                }
                so = so + 1;
            }
            proof {
                assert(rows[z as int].take(n as int) =~= rows[z as int]);
                assert(rows.take(z as int + 1).drop_last() =~= rows.take(z as int));
            }
            z = z + 1;
        }
        proof {
            assert(rows.take(depth as int) =~= rows);
            lemma_all_parts_len(rows, self.layer_count_spec(), area as nat);
        }
        (tile_indices, tile_colors)
    }
}

/// Trading slots `a` and `b` twice gives back every z-level's layers as they were.
pub proof fn lemma_swap_twice(rows: Seq<Seq<LayerKindInner>>, a: int, b: int)
    requires
        forall|z: int| 0 <= z < rows.len() ==> 0 <= a < (#[trigger] rows[z]).len() && 0 <= b < rows[z].len(),
    ensures
        swap_rows(swap_rows(rows, a, b), a, b) == rows,
{
    let once = swap_rows(rows, a, b);
    let twice = swap_rows(once, a, b);
    assert forall|z: int| 0 <= z < rows.len() implies #[trigger] twice[z] == rows[z] by {
        assert forall|s: int| 0 <= s < rows[z].len() implies #[trigger] twice[z][s] == rows[z][s] by {
            assert(once[z][swap_index(s, a, b)] == rows[z][swap_index(swap_index(s, a, b), a, b)]);
        }
        assert(twice[z] =~= rows[z]);
    }
    assert(twice =~= rows);
}

/// One z-level's contribution holds `area` tiles per layer, and the layer of
/// sprite order `so` fills the `so`-th run of `area` tiles.
pub proof fn lemma_row_parts_layout(row: Seq<LayerKindInner>, area: nat, so: int)
    requires
        0 <= so < row.len(),
    ensures
        row_parts(row, area).len() == row.len() * area,
        row_parts(row, area).subrange(so * area, so * area + area) == row[so].attributes(area),
    decreases row.len(),
{
    let prefix = row.drop_last();
    lemma_row_parts_len(prefix, area);
    assert(prefix.len() * area + area == row.len() * area) by (nonlinear_arith)
        requires
            prefix.len() + 1 == row.len(),
    ;
    if so == row.len() - 1 {
        assert(row_parts(row, area).subrange(so * area, so * area + area) =~= row[so].attributes(area));
    } else {
        lemma_row_parts_layout(prefix, area, so);
        assert(so * area + area <= prefix.len() * area) by (nonlinear_arith)
            requires
                so + 1 <= prefix.len(),
        ;
        assert(row_parts(row, area).subrange(so * area, so * area + area) =~= row_parts(prefix, area).subrange(
            so * area,
            so * area + area,
        ));
    }
}

/// One z-level's contribution holds `area` tiles per layer.
pub proof fn lemma_row_parts_len(row: Seq<LayerKindInner>, area: nat)
    ensures
        row_parts(row, area).len() == row.len() * area,
    decreases row.len(),
{
    if row.len() > 0 {
        lemma_row_parts_len(row.drop_last(), area);
        assert((row.len() - 1) * area + area == row.len() * area) by (nonlinear_arith);
    }
}

/// With `n` layers per z-level, the whole buffer holds `rows.len() * n * area`
/// tiles and the layer at `z` and `so` fills run number `z * n + so`.
pub proof fn lemma_all_parts_layout(rows: Seq<Seq<LayerKindInner>>, n: nat, area: nat, z: int, so: int)
    requires
        forall|zz: int| 0 <= zz < rows.len() ==> (#[trigger] rows[zz]).len() == n,
        0 <= z < rows.len(),
        0 <= so < n,
    ensures
        all_parts(rows, area).len() == rows.len() * (n * area),
        all_parts(rows, area).subrange((z * n + so) * area, (z * n + so) * area + area) == rows[z][so].attributes(area),
    decreases rows.len(),
{
    let prefix = rows.drop_last();
    assert forall|zz: int| 0 <= zz < prefix.len() implies (#[trigger] prefix[zz]).len() == n by {
        assert(prefix[zz] == rows[zz]);
    }
    lemma_all_parts_len(prefix, n, area);
    lemma_row_parts_layout(rows.last(), area, so);
    assert(so * area + area <= n * area) by (nonlinear_arith)
        requires
            so + 1 <= n,
    ;
    assert(prefix.len() * (n * area) + n * area == rows.len() * (n * area)) by (nonlinear_arith)
        requires
            prefix.len() + 1 == rows.len(),
    ;
    let start = (z * n + so) * area;
    if z == rows.len() - 1 {
        assert(start == prefix.len() * (n * area) + so * area) by (nonlinear_arith)
            requires
                z == prefix.len(),
                start == (z * n + so) * area,
        ;
        assert(all_parts(rows, area).subrange(start, start + area) =~= row_parts(rows.last(), area).subrange(
            so * area,
            so * area + area,
        ));
    } else {
        lemma_all_parts_layout(prefix, n, area, z, so);
        assert(start + area <= prefix.len() * (n * area)) by (nonlinear_arith)
            requires
                z + 1 <= prefix.len(),
                so + 1 <= n,
                start == (z * n + so) * area,
        ;
        assert(all_parts(rows, area).subrange(start, start + area) =~= all_parts(prefix, area).subrange(start, start + area));
    }
}

/// With `n` layers per z-level, the whole buffer holds `rows.len() * n * area` tiles.
pub proof fn lemma_all_parts_len(rows: Seq<Seq<LayerKindInner>>, n: nat, area: nat)
    requires
        forall|zz: int| 0 <= zz < rows.len() ==> (#[trigger] rows[zz]).len() == n,
    ensures
        all_parts(rows, area).len() == rows.len() * (n * area),
    decreases rows.len(),
{
    if rows.len() > 0 {
        lemma_all_parts_len(rows.drop_last(), n, area);
        lemma_row_parts_len(rows.last(), area);
        assert((rows.len() - 1) * (n * area) + n * area == rows.len() * (n * area)) by (nonlinear_arith);
    }
}

/// Right after `add_layer` put a fresh layer at sprite order `so`, that
/// layer's run of the renderer buffer, at every z-level, holds `area`
/// placeholders.
pub proof fn lemma_added_layer_renders_placeholders(
    before: Chunk,
    after: Chunk,
    kind: LayerKind,
    so: int,
    dimensions: Dimension3,
    z: int,
)
    requires
        before.wf(),
        after.wf(),
        after.same_frame(before),
        0 <= so < before.layer_count_spec(),
        0 <= z < before.depth(),
        forall|zz: int| 0 <= zz < before.depth() ==> (#[trigger] after.slot(zz, so)).is_fresh(kind, dimensions.area_spec()),
    ensures
        ({
            let area = dimensions.area_spec();
            let start = (z * after.layer_count_spec() + so) * area;
            all_parts(after.rows(), area).subrange(start, start + area) == placeholders(area)
        }),
{
    let area = dimensions.area_spec();
    let rows = after.rows();
    let n = after.layer_count_spec();
    assert forall|zz: int| 0 <= zz < rows.len() implies (#[trigger] rows[zz]).len() == n by {}
    lemma_all_parts_layout(rows, n, area, z, so);
    lemma_fresh_attributes(after.slot(z, so), kind, area);
}

/// Reading a cell right after `set_tile` wrote a tile there gives that tile.
pub proof fn lemma_chunk_set_then_get(before: Chunk, after: Chunk, index: int, tile: Tile)
    requires
        before.address_error(index, tile.sprite_order as int, tile.point.z as int) is None,
        after.same_frame(before),
        after.written(before, index, tile.sprite_order as int, tile.point.z as int,
            Some(RawTile { index: tile.sprite_index, color: tile.tint })),
    ensures
        after.tile_at(index, tile.sprite_order as int, tile.point.z as int) == Some(
            RawTile { index: tile.sprite_index, color: tile.tint },
        ),
{
}

/// Calling `swap_sprite_order(a, b)` twice on a chunk gives back the layers it had.
pub proof fn lemma_chunk_swap_twice(c0: Chunk, c1: Chunk, c2: Chunk, a: int, b: int)
    requires
        c0.wf(),
        0 <= a < c0.layer_count_spec(),
        0 <= b < c0.layer_count_spec(),
        c1.rows() == swap_rows(c0.rows(), a, b),
        c2.rows() == swap_rows(c1.rows(), a, b),
    ensures
        c2.rows() == c0.rows(),
{
    lemma_swap_twice(c0.rows(), a, b);
}

} // verus!
