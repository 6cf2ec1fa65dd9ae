//! The board generator: from a seed and a few ranges to the starting state
//! of a game.

use crate::dice::{
    draw_i64, draw_usize, i64_draw, rearranged, rng_state, seeded_rng, seeded_state,
    shuffle_draw, shuffle_items, word_draw,
};
use crate::model::{fresh, fresh_tiles, Model, ModelView};
use crate::tile::{load_among, magnitude, magnitude_of, Tile};
use rand::rngs::StdRng;
use vstd::arithmetic::div_mod::lemma_fundamental_div_mod_converse;
use vstd::prelude::*;

verus! {

/// What a board is generated from.
#[derive(Debug)]
pub struct BoardConfig {
    /// The seed of the random generator.
    pub seed: [u8; 32],
    /// The first coordinates of the grid of candidate positions.
    pub rows: Vec<u64>,
    /// The second coordinates of the grid of candidate positions.
    pub cols: Vec<u64>,
    /// Each coordinate is moved by an offset between `-jitter` and `jitter`.
    pub jitter: i64,
    /// The least number of tiles.
    pub count_min: usize,
    /// The greatest number of tiles.
    pub count_max: usize,
    /// The least value of a tile.
    pub value_min: i64,
    /// The greatest value of a tile.
    pub value_max: i64,
    /// The position of every tile for which the grid has no position left.
    pub filler: (u64, u64),
}

/// A configuration as contracts see it.
pub struct BoardConfigView {
    pub seed: Seq<u8>,
    pub rows: Seq<u64>,
    pub cols: Seq<u64>,
    pub jitter: i64,
    pub count_min: usize,
    pub count_max: usize,
    pub value_min: i64,
    pub value_max: i64,
    pub filler: (u64, u64),
}

impl View for BoardConfig {
    type V = BoardConfigView;

    open spec fn view(&self) -> BoardConfigView {
        BoardConfigView {
            seed: self.seed@,
            rows: self.rows@,
            cols: self.cols@,
            jitter: self.jitter,
            count_min: self.count_min,
            count_max: self.count_max,
            value_min: self.value_min,
            value_max: self.value_max,
            filler: self.filler,
        }
    }
}

impl BoardConfigView {
    /// The greatest magnitude that a drawn value can have.
    pub open spec fn reach(self) -> nat {
        if magnitude(self.value_min as int) >= magnitude(self.value_max as int) {
            magnitude(self.value_min as int)
        } else {
            magnitude(self.value_max as int)
        }
    }

    /// Whether a board can be generated from this configuration: the three
    /// ranges are not empty and their bounds can be handed to the generator,
    /// the grid is not larger than a list can be, and no board that the
    /// value range admits is so heavy that a combine could overflow.
    pub open spec fn valid(self) -> bool {
        &&& 0 <= self.jitter < i64::MAX
        &&& self.count_min <= self.count_max < usize::MAX
        &&& self.value_min <= self.value_max < i64::MAX
        &&& self.rows.len() * self.cols.len() <= usize::MAX
        &&& self.count_max * self.reach() <= i64::MAX
    }

    /// The candidate positions of this configuration.
    pub open spec fn grid(self) -> Seq<(u64, u64)> {
        grid(self.rows, self.cols)
    }

    /// Whether `point` is the filler or lies within the jitter of some
    /// candidate position.
    pub open spec fn admits_position(self, point: (u64, u64)) -> bool {
        point == self.filler || exists|k: int|
            0 <= k < self.grid().len() && #[trigger] within_jitter(
                self.grid()[k],
                self.jitter,
                point,
            )
    }

    /// Whether `tiles` are as many as the count range allows, each with a
    /// value in the value range and at a position that the grid admits.
    pub open spec fn admits(self, tiles: Seq<Tile>) -> bool {
        &&& self.count_min <= tiles.len() <= self.count_max
        &&& forall|i: int|
            0 <= i < tiles.len() ==> self.value_min <= (#[trigger] tiles[i]).value
                <= self.value_max
        &&& forall|i: int|
            0 <= i < tiles.len() ==> self.admits_position((#[trigger] tiles[i]).position)
    }
}

/// Whether each coordinate of `point` is at most `jitter` away from that of
/// `base`, as far as a `u64` reaches.
pub open spec fn within_jitter(base: (u64, u64), jitter: i64, point: (u64, u64)) -> bool {
    &&& shifted(base.0, (-jitter) as i64) <= point.0 <= shifted(base.0, jitter)
    &&& shifted(base.1, (-jitter) as i64) <= point.1 <= shifted(base.1, jitter)
}

/// The state in which the game on the generated board starts: the seeded
/// generator jitters the grid, shuffles it, draws the number of tiles and
/// then their values, in this order.
pub open spec fn board_of(c: BoardConfigView) -> ModelView {
    let placed = jittered(c.grid(), c.jitter, seeded_state(c.seed), c.grid().len() as int);
    let order = shuffle_draw(placed.1, placed.0.len());
    let count = word_draw(order.1, c.count_min, (c.count_max + 1) as usize, usize::BITS);
    let values = drawn_values(c.value_min, (c.value_max + 1) as i64, count.1, count.0 as int);
    fresh(values.0, fitted(rearranged(placed.0, order.0), count.0 as nat, c.filler))
}

/// A coordinate moved by an offset, kept within what a `u64` holds.
pub open spec fn shifted(base: u64, offset: i64) -> u64 {
    if base + offset < 0 {
        0
    } else if base + offset > u64::MAX {
        u64::MAX
    } else {
        (base + offset) as u64
    }
}

/// Moves a coordinate by an offset; the result stops at zero and at the
/// greatest `u64`.
pub fn shift(base: u64, offset: i64) -> (moved: u64)
    ensures
        moved == shifted(base, offset),
{
    if offset >= 0 {
        let up = offset as u64;
        if up > u64::MAX - base {
            u64::MAX
        } else {
            base + up
        }
    } else {
        let down: u64 = if offset == i64::MIN {
            9223372036854775808u64
        } else {
            (-offset) as u64
        };
        if down > base {
            0
        } else {
            base - down
        }
    }
}

/// The candidate positions: every row coordinate with every column
/// coordinate, row by row.
pub open spec fn grid(rows: Seq<u64>, cols: Seq<u64>) -> Seq<(u64, u64)> {
    Seq::new(
        rows.len() * cols.len(),
        |k: int| (rows[k / cols.len() as int], cols[k % cols.len() as int]),
    )
}

/// The grid's positions up to the `k`th, each coordinate moved by an offset
/// drawn from `-jitter..=jitter`, first coordinate first; and the
/// generator's state after those draws.
pub open spec fn jittered(bases: Seq<(u64, u64)>, jitter: i64, state: Seq<u8>, k: int) -> (
    Seq<(u64, u64)>,
    Seq<u8>,
)
    decreases k,
{
    if k <= 0 {
        (Seq::empty(), state)
    } else {
        let before = jittered(bases, jitter, state, k - 1);
        let dx = i64_draw(before.1, (-jitter) as i64, (jitter + 1) as i64);
        let dy = i64_draw(dx.1, (-jitter) as i64, (jitter + 1) as i64);
        (
            before.0.push((shifted(bases[k - 1].0, dx.0), shifted(bases[k - 1].1, dy.0))),
            dy.1,
        )
    }
}

/// The first `k` values drawn from `low..high`, and the generator's state
/// after those draws.
pub open spec fn drawn_values(low: i64, high: i64, state: Seq<u8>, k: int) -> (Seq<i64>, Seq<u8>)
    decreases k,
{
    if k <= 0 {
        (Seq::empty(), state)
    } else {
        let before = drawn_values(low, high, state, k - 1);
        let value = i64_draw(before.1, low, high);
        (before.0.push(value.0), value.1)
    }
}

/// The first `n` of `points`, with `filler` wherever they run out.
pub open spec fn fitted(points: Seq<(u64, u64)>, n: nat, filler: (u64, u64)) -> Seq<(u64, u64)> {
    Seq::new(
        n,
        |i: int|
            if i < points.len() {
                points[i]
            } else {
                filler
            },
    )
}

/// Cuts `points` down to `n` entries, or fills them up to `n` with `filler`.
pub fn fit(points: &mut Vec<(u64, u64)>, n: usize, filler: (u64, u64))
    ensures
        final(points)@ == fitted(old(points)@, n as nat, filler),
{
    let ghost given = points@;
    points.truncate(n);
    while points.len() < n
        invariant
            points@.len() <= n,
            points@.len() < n ==> given.len() <= points@.len(),
            points@ =~= fitted(given, points@.len(), filler),
        decreases n - points.len(),
    {
        points.push(filler);
    }
}

/// Draws a jittered position for each point of the grid, row by row.
fn place(config: &BoardConfig, rng: &mut StdRng) -> (points: Vec<(u64, u64)>)
    requires
        0 <= config.jitter < i64::MAX,
        config.rows@.len() * config.cols@.len() <= usize::MAX,
    ensures
        (points@, rng_state(*final(rng))) == jittered(
            config@.grid(),
            config.jitter,
            rng_state(*old(rng)),
            config@.grid().len() as int,
        ),
        points@.len() == config@.grid().len(),
        forall|k: int|
            0 <= k < points@.len() ==> within_jitter(
                config@.grid()[k],
                config.jitter,
                #[trigger] points@[k],
            ),
{
    let ghost bases = config@.grid();
    let ghost start = rng_state(*rng);
    let jitter = config.jitter;
    let nrows = config.rows.len();
    let ncols = config.cols.len();
    let mut points: Vec<(u64, u64)> = Vec::new();
    let mut r: usize = 0;
    while r < nrows
        invariant
            0 <= jitter < i64::MAX,
            jitter == config.jitter,
            nrows == config.rows@.len(),
            ncols == config.cols@.len(),
            nrows * ncols <= usize::MAX,
            bases == config@.grid(),
            r <= nrows,
            points@.len() == r * ncols,
            (points@, rng_state(*rng)) == jittered(bases, jitter, start, r * ncols),
            forall|k: int|
                0 <= k < points@.len() ==> within_jitter(bases[k], jitter, #[trigger] points@[k]),
        decreases nrows - r,
    {
        let mut c: usize = 0;
        while c < ncols
            invariant
                0 <= jitter < i64::MAX,
                jitter == config.jitter,
                nrows == config.rows@.len(),
                ncols == config.cols@.len(),
                nrows * ncols <= usize::MAX,
                bases == config@.grid(),
                r < nrows,
                c <= ncols,
                points@.len() == r * ncols + c,
                (points@, rng_state(*rng)) == jittered(bases, jitter, start, r * ncols + c),
                forall|k: int|
                    0 <= k < points@.len() ==> within_jitter(
                        bases[k],
                        jitter,
                        #[trigger] points@[k],
                    ),
            decreases ncols - c,
        {
            let ghost k = r * ncols + c;
            proof {
                lemma_fundamental_div_mod_converse(k, ncols as int, r as int, c as int);
                assert(k < nrows * ncols) by (nonlinear_arith)
                    requires
                        k == r * ncols + c,
                        r < nrows,
                        c < ncols,
                ;
                assert(bases[k] == (config.rows@[r as int], config.cols@[c as int]));
            }
            let dx = draw_i64(rng, -jitter, jitter + 1);
            let dy = draw_i64(rng, -jitter, jitter + 1);
            points.push((shift(config.rows[r], dx), shift(config.cols[c], dy)));
            c = c + 1;
        }
        assert(r * ncols + ncols == (r + 1) * ncols) by (nonlinear_arith);
        r = r + 1;
    }
    assert(r * ncols == config@.grid().len());
    points
}

/// Draws `n` values from `low..high`, one after another.
fn draw_values(rng: &mut StdRng, low: i64, high: i64, n: usize) -> (values: Vec<i64>)
    requires
        low < high,
    ensures
        (values@, rng_state(*final(rng))) == drawn_values(
            low,
            high,
            rng_state(*old(rng)),
            n as int,
        ),
        values@.len() == n,
        forall|i: int| 0 <= i < n ==> low <= #[trigger] values@[i] < high,
{
    let ghost start = rng_state(*rng);
    let mut values: Vec<i64> = Vec::new();
    let mut i: usize = 0;
    while i < n
        invariant
            low < high,
            i <= n,
            values@.len() == i,
            (values@, rng_state(*rng)) == drawn_values(low, high, start, i as int),
            forall|j: int| 0 <= j < i ==> low <= #[trigger] values@[j] < high,
        decreases n - i,
    {
        let value = draw_i64(rng, low, high);
        values.push(value);
        i = i + 1;
    }
    values
}

/// A board of `n` tiles whose values have magnitudes of at most `reach`
/// is no heavier than `n * reach`.
proof fn lemma_load_within(values: Seq<i64>, points: Seq<(u64, u64)>, reach: nat, n: int)
    requires
        0 <= n <= values.len(),
        forall|i: int| 0 <= i < values.len() ==> magnitude(#[trigger] values[i] as int) <= reach,
    ensures
        load_among(fresh_tiles(values, points), n) <= n * reach,
    decreases n,
{
    if n > 0 {
        lemma_load_within(values, points, reach, n - 1);
        assert((n - 1) * reach + reach == n * reach) by (nonlinear_arith);
    }
}

/// Generates the starting state of a game from `config`.
///
/// The board depends on nothing but the configuration. It has between
/// `count_min` and `count_max` tiles, each with a value between `value_min`
/// and `value_max`, at the filler position or within the jitter of a grid
/// position.
pub fn generate(config: &BoardConfig) -> (model: Model)
    requires
        config@.valid(),
    ensures
        model.wf(),
        model@ == board_of(config@),
        config@.admits(model@.tiles),
{
    let mut rng = seeded_rng(config.seed);
    let mut points = place(config, &mut rng);
    let ghost placed = points@;
    let ghost order = shuffle_draw(rng_state(rng), placed.len()).0;
    shuffle_items(&mut points, &mut rng);
    let ghost shuffled = points@;
    let n = draw_usize(&mut rng, config.count_min, config.count_max + 1);
    let values = draw_values(&mut rng, config.value_min, config.value_max + 1, n);
    fit(&mut points, n, config.filler);
    proof {
        let c = config@;
        let tiles = fresh_tiles(values@, points@);
        assert forall|i: int| 0 <= i < values@.len() implies magnitude(
            #[trigger] values@[i] as int,
        ) <= c.reach() by {}
        lemma_load_within(values@, points@, c.reach(), n as int);
        assert(n * c.reach() <= c.count_max * c.reach()) by (nonlinear_arith)
            requires
                n <= c.count_max,
        ;
        assert forall|i: int| 0 <= i < tiles.len() implies c.admits_position(
            (#[trigger] tiles[i]).position,
        ) by {
            if i < shuffled.len() {
                let k = order[i];
                assert(within_jitter(c.grid()[k], c.jitter, placed[k]));
            }
        }
    }
    Model::assemble(values, points)
}

impl BoardConfig {
    /// The configuration of the standard game: twelve tiles with values from
    /// -100 to 100 on a jittered grid of three rows and six columns.
    pub open spec fn standard_view() -> BoardConfigView {
        BoardConfigView {
            seed: Seq::new(32, |i: int| 13u8),
            rows: seq![6u64, 18, 30],
            cols: seq![16u64, 28, 40, 52, 64, 76],
            jitter: 2,
            count_min: 12,
            count_max: 12,
            value_min: (-100i64),
            value_max: 100,
            filler: (50, 50),
        }
    }

    /// The configuration of the standard game.
    pub fn standard() -> (config: BoardConfig)
        ensures
            config@ == Self::standard_view(),
            config@.valid(),
    {
        let seed: [u8; 32] = [13u8; 32];
        let mut rows: Vec<u64> = Vec::new();
        rows.push(6);
        rows.push(18);
        rows.push(30);
        let mut cols: Vec<u64> = Vec::new();
        cols.push(16);
        cols.push(28);
        cols.push(40);
        cols.push(52);
        cols.push(64);
        cols.push(76);
        let config = BoardConfig {
            seed,
            rows,
            cols,
            jitter: 2,
            count_min: 12,
            count_max: 12,
            value_min: -100,
            value_max: 100,
            filler: (50, 50),
        };
        assert(config@.seed =~= Self::standard_view().seed);
        assert(config@.rows =~= Self::standard_view().rows);
        assert(config@.cols =~= Self::standard_view().cols);
        config
    }

    /// Whether a board can be generated from this configuration.
    pub fn is_valid(&self) -> (ok: bool)
        ensures
            ok == self@.valid(),
    {
        if !(0 <= self.jitter && self.jitter < i64::MAX) {
            return false;
        }
        if !(self.count_min <= self.count_max && self.count_max < usize::MAX) {
            return false;
        }
        if !(self.value_min <= self.value_max && self.value_max < i64::MAX) {
            return false;
        }
        if self.rows.len().checked_mul(self.cols.len()).is_none() {
            return false;
        }
        let low = magnitude_of(self.value_min);
        let high = magnitude_of(self.value_max);
        let reach: u64 = if low >= high {
            low
        } else {
            high
        };
        let count = self.count_max as u128;
        assert(count * reach <= 0xffff_ffff_ffff_ffff * 0x8000_0000_0000_0000) by (nonlinear_arith)
            requires
                0 <= count <= 0xffff_ffff_ffff_ffff,
                0 <= reach <= 0x8000_0000_0000_0000,
        ;
        count * (reach as u128) <= 9223372036854775807u128
    }
}

/// The starting state of the standard game.
pub fn model_default() -> (model: Model)
    ensures
        model.wf(),
        model@ == board_of(BoardConfig::standard_view()),
        BoardConfig::standard_view().admits(model@.tiles),
{
    let config = BoardConfig::standard();
    generate(&config)
}

} // verus!
