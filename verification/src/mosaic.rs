//! A grid of tiles of which a random handful is lit, redrawn every few
//! frames.

use vstd::prelude::*;

verus! {

/// The number of columns of the grid.
pub const COLUMNS: u8 = 16;

/// The number of rows of the grid.
pub const ROWS: u8 = 9;

/// The number of tiles.
pub const TILES: u8 = 144;

/// The number of tiles drawn at every refresh. One tile may be drawn twice.
pub const LIT: usize = 16;

/// The number of frames from one refresh to the next.
pub const REFRESH_INTERVAL: u64 = 10;

/// The edge of a tile, in display units.
pub const TILE_SIZE: i32 = 160;

/// Every drawn tile exists.
pub open spec fn all_on_grid(tiles: Seq<u8>) -> bool {
    forall|i: int| 0 <= i < tiles.len() ==> #[trigger] tiles[i] < TILES
}

/// The horizontal centre of the tiles of `column` on a display centred on
/// the origin.
pub open spec fn center_x(column: int) -> int {
    column * TILE_SIZE - (COLUMNS * TILE_SIZE) / 2 + TILE_SIZE / 2
}

/// The vertical centre of the tiles of `row` on a display centred on the
/// origin.
pub open spec fn center_y(row: int) -> int {
    row * TILE_SIZE - (ROWS * TILE_SIZE) / 2 + TILE_SIZE / 2
}

/// Draws a number at random from `low` up to, not including, `high`.
///
/// Calls `nannou_core::rand::random_range`, which samples the half-open range
/// between its two arguments from the thread's generator. It fails on an
/// empty range, which `low < high` rules out. Nothing is claimed of the number
/// but that it lies in the range.
#[verifier::external_body]
fn random_between(low: u8, high: u8) -> (drawn: u8)
    requires
        low < high,
    ensures
        low <= drawn < high,
{
    nannou_core::rand::random_range(low, high)
}

/// Whether the tiles are drawn afresh in frame number `frames`.
pub fn refresh_due(frames: u64) -> (due: bool)
    ensures
        due == (frames % REFRESH_INTERVAL == 0),
{
    frames % REFRESH_INTERVAL == 0
}

/// The centre of the tile in `column` and `row`.
pub fn tile_center(column: u8, row: u8) -> (center: (i32, i32))
    requires
        column < COLUMNS,
        row < ROWS,
    ensures
        center.0 == center_x(column as int),
        center.1 == center_y(row as int),
        center.0 == 160 * column - 1200,
        center.1 == 160 * row - 640,
{
    (column as i32 * TILE_SIZE - 1200, row as i32 * TILE_SIZE - 640)
}

/// The column and the row of tile number `tile`, counted row by row.
pub fn tile_place(tile: u8) -> (place: (u8, u8))
    requires
        tile < TILES,
    ensures
        place.0 == tile % COLUMNS,
        place.1 == tile / COLUMNS,
        place.0 < COLUMNS,
        place.1 < ROWS,
{
    (tile % COLUMNS, tile / COLUMNS)
}

/// The lit tiles.
pub struct Mosaic {
    lit: [u8; 16],
}

impl View for Mosaic {
    type V = Seq<u8>;

    /// The tiles drawn at the last refresh, in the order in which they were
    /// drawn.
    closed spec fn view(&self) -> Seq<u8> {
        self.lit@
    }
}

impl Mosaic {
    /// Every lit tile exists.
    pub open spec fn wf(&self) -> bool {
        self@.len() == LIT && all_on_grid(self@)
    }

    /// A mosaic of which only the first tile is lit.
    pub fn new() -> (mosaic: Self)
        ensures
            mosaic.wf(),
            mosaic@ == Seq::new(LIT as nat, |i: int| 0u8),
    {
        let mosaic = Mosaic { lit: [0u8;16] };
        assert(mosaic@ =~= Seq::new(LIT as nat, |i: int| 0u8));
        mosaic
    }

    /// The lit tiles.
    pub fn lit(&self) -> (lit: [u8; 16])
        ensures
            lit@ == self@,
    {
        self.lit
    }

    /// Whether `tile` is lit.
    pub fn is_lit(&self, tile: u8) -> (lit: bool)
        ensures
            lit == self@.contains(tile),
    {
        let mut i: usize = 0;
        while i < 16
            invariant
                i <= 16,
                self.lit@.len() == 16,
                forall|j: int| 0 <= j < i ==> self.lit@[j] != tile,
            decreases 16 - i,
        {
            if self.lit[i] == tile {
                return true;
            }
            i += 1;
        }
        false
    }

    /// Lights the tiles `drawn` in place of those lit before, provided every
    /// one of them exists. Otherwise nothing changes.
    pub fn accept(&mut self, drawn: [u8; 16]) -> (accepted: bool)
        ensures
            accepted == all_on_grid(drawn@),
            accepted ==> final(self)@ == drawn@,
            !accepted ==> final(self)@ == old(self)@,
    {
        let mut i: usize = 0;
        while i < 16
            invariant
                i <= 16,
                drawn@.len() == 16,
                forall|j: int| 0 <= j < i ==> #[trigger] drawn@[j] < TILES,
            decreases 16 - i,
        {
            if drawn[i] >= TILES {
                return false;
            }
            i += 1;
        }
        self.lit = drawn;
        true
    }

    /// Draws sixteen tiles at random.
    pub fn draw() -> (drawn: [u8; 16])
        ensures
            all_on_grid(drawn@),
    {
        let mut drawn = [0u8;16];
        let mut i: usize = 0;
        while i < 16
            invariant
                i <= 16,
                drawn@.len() == 16,
                forall|j: int| 0 <= j < 16 ==> #[trigger] drawn@[j] < TILES,
            decreases 16 - i,
        {
            drawn[i] = random_between(0, TILES);
            i += 1;
        }
        drawn
    }

    /// Advances the mosaic to frame number `frames`: every tenth frame the lit
    /// tiles are drawn afresh, at random; in every other frame they stay.
    pub fn update(&mut self, frames: u64)
        ensures
            frames % REFRESH_INTERVAL != 0 ==> final(self)@ == old(self)@,
            frames % REFRESH_INTERVAL == 0 ==> final(self).wf(),
    {
        if refresh_due(frames) {
            let drawn = Mosaic::draw();
            self.accept(drawn);
        }
    }
}

} // verus!
