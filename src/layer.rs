use vstd::prelude::*;
use std::collections::BTreeMap;
use vstd::std_specs::iter::IteratorSpec;

use crate::tile::{Entity, RawTile, Rgba};

verus! {

broadcast use vstd::std_specs::btree::group_btree_axioms;

/// How a layer stores its tiles.
#[derive(Clone, Copy, Debug, PartialEq, Eq, Structural)]
pub enum LayerKind {
    /// Every cell of the chunk has a slot.
    Dense,
    /// Only the cells that were set are stored.
    Sparse,
}

/// A layer holding one tile per cell, row by row.
pub struct DenseLayer {
    pub tiles: Vec<RawTile>,
}

/// A layer holding only the cells that were set, keyed by cell index.
pub struct SparseLayer {
    pub tiles: BTreeMap<usize, RawTile>,
}

/// The storage of a layer, in one of the two kinds.
pub enum LayerKindInner {
    Dense(DenseLayer),
    Sparse(SparseLayer),
}

/// The tiles stored for one cell index: the stored one, or the placeholder.
pub open spec fn or_placeholder(t: Option<RawTile>) -> RawTile {
    match t {
        Some(t) => t,
        None => RawTile::placeholder_spec(),
    }
}

/// `area` placeholder tiles.
pub open spec fn placeholders(area: nat) -> Seq<RawTile> {
    Seq::new(area, |i: int| RawTile::placeholder_spec())
}

impl LayerKindInner {
    pub open spec fn kind(self) -> LayerKind {
        match self {
            LayerKindInner::Dense(_) => LayerKind::Dense,
            LayerKindInner::Sparse(_) => LayerKind::Sparse,
        }
    }

    /// The tile stored at a cell index, if any.
    pub open spec fn tile_at(self, i: int) -> Option<RawTile> {
        match self {
            LayerKindInner::Dense(d) => if 0 <= i < d.tiles@.len() {
                Some(d.tiles@[i])
            } else {
                None
            },
            LayerKindInner::Sparse(s) => if 0 <= i <= usize::MAX && s.tiles@.contains_key(i as usize) {
                Some(s.tiles@[i as usize])
            } else {
                None
            },
        }
    }

    /// Whether an index may be written: any index of a sparse layer, an index
    /// within the slots of a dense one.
    pub open spec fn accepts(self, i: int) -> bool {
        match self {
            LayerKindInner::Dense(d) => 0 <= i < d.tiles@.len(),
            LayerKindInner::Sparse(_) => 0 <= i <= usize::MAX,
        }
    }

    /// The number of slots of a dense layer; zero for a sparse one.
    pub open spec fn dense_len(self) -> nat {
        match self {
            LayerKindInner::Dense(d) => d.tiles@.len(),
            LayerKindInner::Sparse(_) => 0,
        }
    }

    /// Whether the layer holds no tile at all (an empty sparse layer).
    pub open spec fn is_vacant(self) -> bool {
        match self {
            LayerKindInner::Dense(_) => false,
            LayerKindInner::Sparse(s) => s.tiles@.is_empty(),
        }
    }

    /// What the layer contributes to the renderer for a chunk of `area` cells:
    /// one tile per cell, the placeholder where nothing is stored.
    pub open spec fn attributes(self, area: nat) -> Seq<RawTile> {
        Seq::new(area, |i: int| or_placeholder(self.tile_at(i)))
    }

    /// A freshly allocated layer of the given kind for a chunk of `area` cells.
    pub open spec fn is_fresh(self, kind: LayerKind, area: nat) -> bool {
        &&& self.kind() == kind
        &&& match self {
            LayerKindInner::Dense(d) => d.tiles@ == placeholders(area),
            LayerKindInner::Sparse(s) => s.tiles@ == Map::<usize, RawTile>::empty(),
        }
    }

    /// `after` is `before` with cell `i` holding `t` (nothing, for `None`): the
    /// kind, the number of dense slots and every other cell are kept.
    pub open spec fn written(before: LayerKindInner, after: LayerKindInner, i: int, t: Option<RawTile>) -> bool {
        &&& after.kind() == before.kind()
        &&& after.dense_len() == before.dense_len()
        &&& after.tile_at(i) == t
        &&& forall|j: int| j != i ==> #[trigger] after.tile_at(j) == before.tile_at(j)
    }

    /// What a cleared cell holds: the placeholder in a dense layer, nothing in a sparse one.
    pub open spec fn cleared(kind: LayerKind) -> Option<RawTile> {
        match kind {
            LayerKind::Dense => Some(RawTile::placeholder_spec()),
            LayerKind::Sparse => None,
        }
    }

    /// Allocates an empty layer of the given kind: a dense one holds `area`
    /// placeholders, a sparse one holds nothing.
    pub fn new(kind: LayerKind, area: usize) -> (r: LayerKindInner)
        ensures
            r.is_fresh(kind, area as nat),
    {
        match kind {
            LayerKind::Dense => {
                let tiles = vec![RawTile::placeholder(); area];
                proof {
                    assert(tiles@ =~= placeholders(area as nat));
                }
                LayerKindInner::Dense(DenseLayer { tiles })
            },
            LayerKind::Sparse => LayerKindInner::Sparse(SparseLayer { tiles: BTreeMap::new() }),
        }
    }

    /// Writes `tile` at `index`, overwriting what was there.
    pub fn set_tile(&mut self, index: usize, tile: RawTile)
        requires
            old(self).accepts(index as int),
        ensures
            LayerKindInner::written(*old(self), *final(self), index as int, Some(tile)),
    {
        match self {
            LayerKindInner::Dense(d) => {
                d.tiles[index] = tile;
            },
            LayerKindInner::Sparse(s) => {
                s.tiles.insert(index, tile);
            },
        }
    }

    /// Clears the cell at `index`: a dense slot goes back to the placeholder,
    /// a sparse entry is deleted (nothing happens if there is none).
    pub fn remove_tile(&mut self, index: usize)
        requires
            old(self).accepts(index as int),
        ensures
            LayerKindInner::written(*old(self), *final(self), index as int, LayerKindInner::cleared(old(self).kind())),
    {
        match self {
            LayerKindInner::Dense(d) => {
                d.tiles[index] = RawTile::placeholder();
            },
            LayerKindInner::Sparse(s) => {
                s.tiles.remove(&index);
            },
        }
    }

    /// The tile at `index`, or nothing where none is stored.
    pub fn get_tile(&self, index: usize) -> (r: Option<&RawTile>)
        ensures
            match r {
                Some(t) => self.tile_at(index as int) == Some(*t),
                None => self.tile_at(index as int) is None,
            },
    {
        match self {
            LayerKindInner::Dense(d) => if index < d.tiles.len() {
                Some(&d.tiles[index])
            } else {
                None
            },
            LayerKindInner::Sparse(s) => s.tiles.get(&index),
        }
    }

    /// Whether the layer holds no tile at all.
    pub fn is_vacant_exec(&self) -> (r: bool)
        ensures
            r == self.is_vacant(),
    {
        match self {
            LayerKindInner::Dense(_) => false,
            LayerKindInner::Sparse(s) => s.tiles.is_empty(),
        }
    }

    /// The indices that hold a tile, each once: every slot of a dense layer
    /// in order, the set cells of a sparse one.
    pub fn get_tile_indices(&self) -> (r: Vec<usize>)
        ensures
            r@.no_duplicates(),
            forall|i: usize| r@.contains(i) <==> #[trigger] self.tile_at(i as int) is Some,
            self.kind() == LayerKind::Dense ==> r@ == Seq::new(self.dense_len(), |k: int| k as usize),
    {
        match self {
            LayerKindInner::Dense(d) => {
                let len = d.tiles.len();
                let mut r: Vec<usize> = Vec::with_capacity(len);
                let mut i: usize = 0;
                while i < len
                    invariant
                        i <= len,
                        len == d.tiles@.len(),
                        r@ == Seq::new(i as nat, |k: int| k as usize),
                    decreases len - i,
                {
                    r.push(i);
                    i = i + 1;
                    assert(r@ =~= Seq::new(i as nat, |k: int| k as usize));
                }
                proof {
                    assert forall|i: usize| r@.contains(i) <==> #[trigger] self.tile_at(i as int) is Some by {
                        if i < len {
                            assert(r@[i as int] == i);
                        }
                    }
                }
                r
            },
            LayerKindInner::Sparse(s) => {
                let mut r: Vec<usize> = Vec::new();
                proof {
                    assert(vstd::laws_cmp::obeys_cmp::<usize>());
                    assert(vstd::std_specs::btree::key_obeys_cmp_spec::<usize>());
                }
                let ghost keys = s.tiles.keys().remaining();
                for k in it: s.tiles.keys()
                    invariant
                        it.seq() == keys,
                        r@ == keys.take(it.index() as int).map_values(|k: &usize| *k),
                {
                    r.push(*k);
                }
                proof {
                    assert(r@ =~= keys.unref());
                    assert(r@.to_set() == s.tiles@.dom());
                    assert forall|i: usize| r@.contains(i) <==> #[trigger] self.tile_at(i as int) is Some by {
                        assert(r@.contains(i) <==> r@.to_set().contains(i));
                    }
                }
                r
            },
        }
    }

    /// One tile per cell of a chunk of `area` cells, split into the sprite
    /// indices and the tints, the placeholder where nothing is stored.
    pub fn tiles_to_attributes(&self, area: usize) -> (r: (Vec<usize>, Vec<Rgba>))
        ensures
            r.0@.len() == area,
            r.1@.len() == area,
            forall|i: int| 0 <= i < area ==> #[trigger] r.0@[i] == self.attributes(area as nat)[i].index,
            forall|i: int| 0 <= i < area ==> #[trigger] r.1@[i] == self.attributes(area as nat)[i].color,
    {
        let mut indices: Vec<usize> = Vec::with_capacity(area);
        let mut colors: Vec<Rgba> = Vec::with_capacity(area);
        let mut i: usize = 0;
        while i < area
            invariant
                i <= area,
                indices@.len() == i,
                colors@.len() == i,
                forall|k: int| 0 <= k < i ==> #[trigger] indices@[k] == or_placeholder(self.tile_at(k)).index,
                forall|k: int| 0 <= k < i ==> #[trigger] colors@[k] == or_placeholder(self.tile_at(k)).color,
            decreases area - i,
        {
            let t = match self.get_tile(i) {
                Some(t) => *t,
                None => RawTile::placeholder(),
            };
            indices.push(t.index);
            colors.push(t.color);
            i = i + 1;
        }
        (indices, colors)
    }
}

/// A dense layer holds a tile at every index below its number of slots, and
/// keeps that number through writes and removals.
pub proof fn lemma_dense_never_empty(l: LayerKindInner, i: int)
    requires
        l.kind() == LayerKind::Dense,
        0 <= i < l.dense_len(),
    ensures
        l.tile_at(i) is Some,
{
}

/// A fresh sparse layer holds no tile at any index.
pub proof fn lemma_sparse_starts_empty(l: LayerKindInner, area: nat, i: int)
    requires
        l.is_fresh(LayerKind::Sparse, area),
    ensures
        l.tile_at(i) is None,
{
}

/// In a sparse layer, a cell holds a tile once it is set and holds none again
/// once it is removed.
pub proof fn lemma_sparse_set_then_remove(
    l0: LayerKindInner,
    l1: LayerKindInner,
    l2: LayerKindInner,
    i: int,
    t: RawTile,
)
    requires
        l0.kind() == LayerKind::Sparse,
        LayerKindInner::written(l0, l1, i, Some(t)),
        LayerKindInner::written(l1, l2, i, LayerKindInner::cleared(l1.kind())),
    ensures
        l1.tile_at(i) == Some(t),
        l2.tile_at(i) is None,
        forall|j: int| j != i ==> #[trigger] l2.tile_at(j) == l0.tile_at(j),
{
}

/// Reading a cell right after writing `t` there gives `t`, in either kind of layer.
pub proof fn lemma_set_then_get(l0: LayerKindInner, l1: LayerKindInner, i: int, t: RawTile)
    requires
        LayerKindInner::written(l0, l1, i, Some(t)),
    ensures
        l1.tile_at(i) == Some(t),
        or_placeholder(l1.tile_at(i)) == t,
{
}

/// A fresh layer of either kind contributes only placeholders to the renderer.
pub proof fn lemma_fresh_attributes(l: LayerKindInner, kind: LayerKind, area: nat)
    requires
        l.is_fresh(kind, area),
    ensures
        l.attributes(area) == placeholders(area),
{
    assert(l.attributes(area) =~= placeholders(area));
}

/// A layer slot of a chunk: its storage and the render entity bound to it.
pub struct SpriteLayer {
    pub inner: LayerKindInner,
    pub entity: Option<Entity>,
}

impl SpriteLayer {
    /// The content of a slot that was never given a layer: an empty sparse layer.
    pub fn vacant() -> (r: SpriteLayer)
        ensures
            r.inner.is_fresh(LayerKind::Sparse, 0),
            r.entity is None,
    {
        SpriteLayer { inner: LayerKindInner::new(LayerKind::Sparse, 0), entity: None }
    }
}

} // verus!
