//! The grid builder: a pure function from three dimensions to the ordered
//! sequence of tile positions for the grid.
//!
//! Tiles are emitted with height as the outermost dimension, length next and
//! width innermost, so the tile for indices `(x, y, z)` stands at position
//! `(z * length + y) * width + x` of the sequence. Downstream consumers rely
//! on this order for deterministic spawning.

use vstd::arithmetic::div_mod::lemma_fundamental_div_mod_converse;
use vstd::prelude::*;

verus! {

/// One grid cell's position.
///
/// Coordinates are kept doubled ("half units"): the world position of a tile
/// is `(x_half / 2, y_half / 2, z_half / 2)`. Both horizontal axes are
/// centred by subtracting half the grid's *width* extent — the width is used
/// for the y axis as well, deliberately; callers rely on the exact formula —
/// and doubling keeps that offset an exact integer for odd widths too. The
/// render layer divides by two when it places a tile.
#[derive(Clone, Copy, Debug, PartialEq, Eq, Structural)]
pub struct Tile {
    pub x_half: i64,
    pub y_half: i64,
    pub z_half: i64,
}

impl Tile {
    pub fn new(x_half: i64, y_half: i64, z_half: i64) -> (t: Tile)
        ensures
            t == (Tile { x_half, y_half, z_half }),
    {
        Tile { x_half, y_half, z_half }
    }
}

/// The tile at width index `x`, length index `y` and height index `z` of a
/// grid `width` wide: `((x - width / 2, y - width / 2, z))`, doubled.
pub open spec fn spec_tile(width: int, x: int, y: int, z: int) -> Tile {
    Tile {
        x_half: (2 * x - width) as i64,
        y_half: (2 * y - width) as i64,
        z_half: (2 * z) as i64,
    }
}

/// Where the tile for indices `(x, y, z)` stands in the emitted sequence:
/// height-major, length next, width innermost.
pub open spec fn grid_index(width: int, length: int, x: int, y: int, z: int) -> int {
    (z * length + y) * width + x
}

/// The tile at position `k` of the emitted sequence.
pub open spec fn grid_tile_at(width: int, length: int, k: int) -> Tile {
    let plane = width * length;
    spec_tile(width, (k % plane) % width, (k % plane) / width, k / plane)
}

/// The full ordered tile sequence of a `width` by `length` by `height` grid.
pub open spec fn grid_tiles(width: int, length: int, height: int) -> Seq<Tile> {
    Seq::new((width * length * height) as nat, |k: int| grid_tile_at(width, length, k))
}

/// The emitted sequence holds exactly `width * length * height` tiles.
pub proof fn lemma_grid_tile_count(width: int, length: int, height: int)
    requires
        0 <= width,
        0 <= length,
        0 <= height,
    ensures
        grid_tiles(width, length, height).len() == width * length * height,
{
    assert(width * length * height >= 0) by (nonlinear_arith)
        requires
            0 <= width,
            0 <= length,
            0 <= height,
    ;
}

/// A grid with any dimension 0 has no tiles at all.
pub proof fn lemma_grid_zero_dimension_empty(width: int, length: int, height: int)
    requires
        0 <= width,
        0 <= length,
        0 <= height,
        width == 0 || length == 0 || height == 0,
    ensures
        grid_tiles(width, length, height) == Seq::<Tile>::empty(),
{
    assert(width * length * height == 0) by (nonlinear_arith)
        requires
            width == 0 || length == 0 || height == 0,
    ;
    assert(grid_tiles(width, length, height) =~= Seq::<Tile>::empty());
}

/// `grid_index` inverts: position `(z * length + y) * width + x` of the
/// sequence holds exactly the tile for indices `(x, y, z)`.
pub proof fn lemma_grid_tile_position(width: int, length: int, height: int, x: int, y: int, z: int)
    requires
        0 <= x < width,
        0 <= y < length,
        0 <= z < height,
    ensures
        grid_tiles(width, length, height).len() == width * length * height,
        0 <= grid_index(width, length, x, y, z) < width * length * height,
        grid_tiles(width, length, height)[grid_index(width, length, x, y, z)]
            == spec_tile(width, x, y, z),
{
    lemma_grid_tile_count(width, length, height);
    lemma_grid_index_decomposes(width, length, x, y, z);
    let k = grid_index(width, length, x, y, z);
    assert(0 <= k < width * length * height) by (nonlinear_arith)
        requires
            0 <= x < width,
            0 <= y < length,
            0 <= z < height,
            k == (z * length + y) * width + x,
    ;
}

/// Division and remainder recover `(x, y, z)` from the flat index
/// `(z * length + y) * width + x`.
proof fn lemma_grid_index_decomposes(width: int, length: int, x: int, y: int, z: int)
    requires
        0 <= x < width,
        0 <= y < length,
        0 <= z,
    ensures
        grid_tile_at(width, length, grid_index(width, length, x, y, z))
            == spec_tile(width, x, y, z),
{
    let k = grid_index(width, length, x, y, z);
    let plane = width * length;
    let rem = y * width + x;
    assert(k == z * plane + rem) by (nonlinear_arith)
        requires
            k == (z * length + y) * width + x,
            plane == width * length,
            rem == y * width + x,
    ;
    assert(0 <= rem < plane) by (nonlinear_arith)
        requires
            0 <= x < width,
            0 <= y < length,
            rem == y * width + x,
            plane == width * length,
    ;
    lemma_fundamental_div_mod_converse(k, plane, z, rem);
    lemma_fundamental_div_mod_converse(rem, width, y, x);
}

/// An immutable dimensions triple, produced by `FieldRegistry::extract` once
/// all three fields are valid.
#[derive(Clone, Copy, Debug, PartialEq, Eq, Structural)]
pub struct Dimensions {
    pub width: u32,
    pub length: u32,
    pub height: u32,
}

impl From<(u32, u32, u32)> for Dimensions {
    fn from(triple: (u32, u32, u32)) -> (d: Dimensions) {
        Dimensions { width: triple.0, length: triple.1, height: triple.2 }
    }
}

impl vstd::std_specs::convert::FromSpecImpl<(u32, u32, u32)> for Dimensions {
    open spec fn obeys_from_spec() -> bool {
        true
    }

    open spec fn from_spec(triple: (u32, u32, u32)) -> Dimensions {
        Dimensions { width: triple.0, length: triple.1, height: triple.2 }
    }
}

impl Dimensions {
    /// The total tile count of a grid with these dimensions.
    pub fn magnitude(&self) -> (m: u32)
        requires
            self.width * self.length * self.height <= u32::MAX,
        ensures
            m == self.width * self.length * self.height,
    {
        proof {
            assert((self.width as int) * (self.length as int) <= 0xFFFF_FFFE_0000_0001)
                by (nonlinear_arith)
                requires
                    self.width <= 0xFFFF_FFFFu32,
                    self.length <= 0xFFFF_FFFFu32,
            ;
        }
        let wl: u64 = (self.width as u64) * (self.length as u64);
        let m: u64 = wl * (self.height as u64);
        m as u32
    }
}

/// Builds the tile sequence step by step; finished by `build`.
#[derive(Debug)]
pub struct MapBuilder {
    pub width: u32,
    pub length: u32,
    pub height: u32,
}

impl Default for MapBuilder {
    fn default() -> (b: MapBuilder)
        ensures
            b == (MapBuilder { width: 0, length: 0, height: 0 }),
    {
        MapBuilder { width: 0, length: 0, height: 0 }
    }
}

impl MapBuilder {
    pub fn width(self, width: u32) -> (b: MapBuilder)
        ensures
            b == (MapBuilder { width, ..self }),
    {
        MapBuilder { width, ..self }
    }

    pub fn length(self, length: u32) -> (b: MapBuilder)
        ensures
            b == (MapBuilder { length, ..self }),
    {
        MapBuilder { length, ..self }
    }

    pub fn height(self, height: u32) -> (b: MapBuilder)
        ensures
            b == (MapBuilder { height, ..self }),
    {
        MapBuilder { height, ..self }
    }

    /// Emits the full tile sequence: for each height index `z`, for each
    /// length index `y`, for each width index `x`, one tile.
    pub fn build(self) -> (m: GridMap)
        ensures
            m.dimensions == (Dimensions {
                width: self.width,
                length: self.length,
                height: self.height,
            }),
            m.nodes@ == grid_tiles(self.width as int, self.length as int, self.height as int),
    {
        let w = self.width;
        let l = self.length;
        let h = self.height;
        let ghost gw = w as int;
        let ghost gl = l as int;
        let ghost gh = h as int;
        let mut nodes: Vec<Tile> = Vec::new();
        let mut z: u32 = 0;
        proof {
            assert(((z as int) * gl) * gw == 0) by (nonlinear_arith)
                requires
                    z == 0u32,
            ;
        }
        while z < h
            invariant
                z <= h,
                w == self.width && l == self.length && h == self.height,
                gw == w as int && gl == l as int && gh == h as int,
                nodes@.len() == (z * gl) * gw,
                forall|k: int|
                    0 <= k < nodes@.len() ==> nodes@[k] == grid_tile_at(gw, gl, k),
            decreases h - z,
        {
            let mut y: u32 = 0;
            while y < l
                invariant
                    z < h,
                    y <= l,
                    w == self.width && l == self.length && h == self.height,
                    gw == w as int && gl == l as int && gh == h as int,
                    nodes@.len() == (z * gl + y) * gw,
                    forall|k: int|
                        0 <= k < nodes@.len() ==> nodes@[k] == grid_tile_at(gw, gl, k),
                decreases l - y,
            {
                let mut x: u32 = 0;
                while x < w
                    invariant
                        z < h,
                        y < l,
                        x <= w,
                        w == self.width && l == self.length && h == self.height,
                        gw == w as int && gl == l as int && gh == h as int,
                        nodes@.len() == (z * gl + y) * gw + x,
                        forall|k: int|
                            0 <= k < nodes@.len() ==> nodes@[k] == grid_tile_at(gw, gl, k),
                    decreases w - x,
                {
                    let tile = Tile {
                        x_half: 2 * (x as i64) - (w as i64),
                        y_half: 2 * (y as i64) - (w as i64),
                        z_half: 2 * (z as i64),
                    };
                    proof {
                        lemma_grid_index_decomposes(gw, gl, x as int, y as int, z as int);
                        assert(nodes@.len() == grid_index(gw, gl, x as int, y as int, z as int));
                        assert(tile == spec_tile(gw, x as int, y as int, z as int));
                    }
                    nodes.push(tile);
                    x = x + 1;
                }
                proof {
                    assert((z * gl + y) * gw + gw == (z * gl + (y + 1)) * gw) by (nonlinear_arith);
                }
                y = y + 1;
            }
            proof {
                assert((z * gl + gl) * gw == ((z + 1) * gl) * gw) by (nonlinear_arith);
            }
            z = z + 1;
        }
        proof {
            assert((gh * gl) * gw == gw * gl * gh) by (nonlinear_arith);
            lemma_grid_tile_count(gw, gl, gh);
            assert(nodes@ =~= grid_tiles(gw, gl, gh));
        }
        GridMap {
            dimensions: Dimensions { width: w, length: l, height: h },
            nodes,
        }
    }
}

/// A generated grid: its dimensions and the ordered tile positions.
#[derive(Debug)]
pub struct GridMap {
    pub dimensions: Dimensions,
    pub nodes: Vec<Tile>,
}

impl GridMap {
    pub fn builder() -> (b: MapBuilder)
        ensures
            b == (MapBuilder { width: 0, length: 0, height: 0 }),
    {
        MapBuilder::default()
    }
}

/// The one-shot payload signalling "build and show this grid now": consumed
/// by the state transition and by the render layer's spawn pass.
#[derive(Debug)]
pub struct GenerateMapEvent(pub GridMap);

} // verus!
