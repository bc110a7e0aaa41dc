use vstd::prelude::*;

verus! {

/// An RGBA tint with one byte per channel: 0 stands for 0.0 and 255 for 1.0.
#[derive(Clone, Copy, Debug, PartialEq, Eq, Structural)]
pub struct Rgba {
    pub r: u8,
    pub g: u8,
    pub b: u8,
    pub a: u8,
}

impl Rgba {
    /// The fully transparent black tint.
    pub open spec fn transparent_spec() -> Rgba {
        Rgba { r: 0, g: 0, b: 0, a: 0 }
    }

    pub fn transparent() -> (c: Rgba)
        ensures
            c == Rgba::transparent_spec(),
    {
        Rgba { r: 0, g: 0, b: 0, a: 0 }
    }

    pub fn rgba(r: u8, g: u8, b: u8, a: u8) -> (c: Rgba)
        ensures
            c == (Rgba { r, g, b, a }),
    {
        Rgba { r, g, b, a }
    }
}

/// The unit that layers store: a sprite index and a tint.
#[derive(Clone, Copy, Debug, PartialEq, Eq, Structural)]
pub struct RawTile {
    pub index: usize,
    pub color: Rgba,
}

impl RawTile {
    /// The tile that stands for an empty cell: sprite 0, fully transparent.
    pub open spec fn placeholder_spec() -> RawTile {
        RawTile { index: 0, color: Rgba::transparent_spec() }
    }

    pub fn placeholder() -> (t: RawTile)
        ensures
            t == RawTile::placeholder_spec(),
    {
        RawTile { index: 0, color: Rgba::transparent() }
    }
}

/// A point on the two-dimensional grid of chunks.
#[derive(Clone, Copy, Debug, PartialEq, Eq, Structural)]
pub struct Point2 {
    pub x: i32,
    pub y: i32,
}

/// A point on the grid together with a z-depth.
#[derive(Clone, Copy, Debug, PartialEq, Eq, Structural)]
pub struct Point3 {
    pub x: i32,
    pub y: i32,
    pub z: u32,
}

/// The width, height and number of z-levels of a chunk.
#[derive(Clone, Copy, Debug, PartialEq, Eq, Structural)]
pub struct Dimension3 {
    pub width: u32,
    pub height: u32,
    pub depth: u32,
}

impl Dimension3 {
    pub open spec fn area_spec(self) -> nat {
        (self.width * self.height) as nat
    }

    /// Returns `width * height`.
    pub fn area(&self) -> (r: usize)
        requires
            self.area_spec() <= usize::MAX,
        ensures
            r == self.area_spec(),
    {
        (self.width as usize) * (self.height as usize)
    }
}

/// A tile as the map manager hands it to a chunk: where it goes and what it shows.
#[derive(Clone, Copy, Debug, PartialEq, Eq, Structural)]
pub struct Tile {
    pub point: Point3,
    pub sprite_order: usize,
    pub sprite_index: usize,
    pub tint: Rgba,
}

/// An opaque handle of a mesh resource owned by the rendering backend.
#[derive(Clone, Copy, Debug, PartialEq, Eq, Structural)]
pub struct MeshHandle {
    pub id: u64,
}

/// An opaque reference to an entity owned by the surrounding engine.
#[derive(Clone, Copy, Debug, PartialEq, Eq, Structural)]
pub struct Entity {
    pub id: u64,
}

} // verus!
