//! Tiles, and the arithmetic that contracts state over a row of them.

use vstd::prelude::*;

verus! {

/// One numeric element of the board.
#[derive(Clone, Copy, Debug, PartialEq, Eq)]
pub struct Tile {
    /// The tile's index on its board; it never changes.
    pub id: usize,
    /// The number the tile currently shows.
    pub value: i64,
    /// Where the tile is drawn.
    pub position: (u64, u64),
    /// Whether the tile has been consumed by a combine.
    pub used: bool,
}

/// What a display is told about one tile that is still in play.
#[derive(Clone, Copy, Debug, PartialEq, Eq)]
pub struct TileView {
    /// The tile's index on its board.
    pub id: usize,
    /// The number the tile shows.
    pub value: i64,
    /// Where the tile is drawn.
    pub position: (u64, u64),
    /// Whether the tile has been consumed by a combine.
    pub used: bool,
    /// Whether the tile is the selection.
    pub is_selected: bool,
}

/// The absolute value of `v`.
pub open spec fn magnitude(v: int) -> nat {
    if v < 0 {
        (-v) as nat
    } else {
        v as nat
    }
}

/// The absolute value of `v`, which an `i64` cannot always hold.
pub fn magnitude_of(v: i64) -> (m: u64)
    ensures
        m == magnitude(v as int),
{
    if v >= 0 {
        v as u64
    } else if v == i64::MIN {
        9223372036854775808u64
    } else {
        (-v) as u64
    }
}

/// How many of the first `n` tiles are used.
pub open spec fn used_among(tiles: Seq<Tile>, n: int) -> nat
    decreases n,
{
    if n <= 0 {
        0
    } else {
        used_among(tiles, n - 1) + if tiles[n - 1].used {
            1nat
        } else {
            0nat
        }
    }
}

/// How many tiles are used.
pub open spec fn used_count(tiles: Seq<Tile>) -> nat {
    used_among(tiles, tiles.len() as int)
}

/// The sum of the magnitudes of the unused tiles among the first `n`.
pub open spec fn load_among(tiles: Seq<Tile>, n: int) -> nat
    decreases n,
{
    if n <= 0 {
        0
    } else {
        load_among(tiles, n - 1) + if tiles[n - 1].used {
            0nat
        } else {
            magnitude(tiles[n - 1].value as int)
        }
    }
}

/// The sum of the magnitudes of all unused tiles. No combine can raise it,
/// so a board whose load fits in an `i64` never overflows.
pub open spec fn load(tiles: Seq<Tile>) -> nat {
    load_among(tiles, tiles.len() as int)
}

/// The counts are bounded by what the tiles before `n` can contribute, and
/// an unused tile before `n` contributes its magnitude.
pub proof fn lemma_among_bounds(tiles: Seq<Tile>, n: int)
    requires
        0 <= n <= tiles.len(),
    ensures
        used_among(tiles, n) <= n,
        forall|i: int|
            0 <= i < n && !tiles[i].used ==> magnitude(#[trigger] tiles[i].value as int)
                <= load_among(tiles, n),
        used_among(tiles, n) == n <==> forall|i: int| 0 <= i < n ==> (#[trigger] tiles[i]).used,
        used_among(tiles, n) == 0 <==> forall|i: int| 0 <= i < n ==> !(#[trigger] tiles[i]).used,
    decreases n,
{
    if n > 0 {
        lemma_among_bounds(tiles, n - 1);
    }
}

/// Looking at more tiles never lowers the counts.
pub proof fn lemma_among_grows(tiles: Seq<Tile>, n: int, m: int)
    requires
        n <= m,
    ensures
        used_among(tiles, n) <= used_among(tiles, m),
        load_among(tiles, n) <= load_among(tiles, m),
    decreases m - n,
{
    if n < m {
        lemma_among_grows(tiles, n, m - 1);
    }
}

/// Replacing the tile at `k` changes the counts by that tile's share alone.
pub proof fn lemma_among_update(tiles: Seq<Tile>, k: int, tile: Tile, n: int)
    requires
        0 <= k < tiles.len(),
        0 <= n <= tiles.len(),
    ensures
        k >= n ==> used_among(tiles.update(k, tile), n) == used_among(tiles, n),
        k >= n ==> load_among(tiles.update(k, tile), n) == load_among(tiles, n),
        k < n ==> used_among(tiles.update(k, tile), n) + (if tiles[k].used {
            1nat
        } else {
            0nat
        }) == used_among(tiles, n) + (if tile.used {
            1nat
        } else {
            0nat
        }),
        k < n ==> load_among(tiles.update(k, tile), n) + (if tiles[k].used {
            0nat
        } else {
            magnitude(tiles[k].value as int)
        }) == load_among(tiles, n) + (if tile.used {
            0nat
        } else {
            magnitude(tile.value as int)
        }),
    decreases n,
{
    if n > 0 {
        lemma_among_update(tiles, k, tile, n - 1);
    }
}

} // verus!
