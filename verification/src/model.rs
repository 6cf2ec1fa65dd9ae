//! The game state and the transitions that player actions cause.

use crate::action::{Msg, Page};
use crate::tile::{
    lemma_among_bounds, lemma_among_grows, lemma_among_update, load,
    load_among, magnitude, magnitude_of, used_among, used_count, Tile, TileView,
};
use vstd::prelude::*;

verus! {

/// The complete state of one play-through, as contracts see it.
pub struct ModelView {
    /// The tiles, in board order; a tile's id is its index.
    pub tiles: Seq<Tile>,
    /// The id of the tile that waits for a second one, if any.
    pub selected: Option<usize>,
    /// The page the player is looking at.
    pub page: Page,
    /// Whether the game is over.
    pub finished: bool,
    /// The player's name.
    pub name: Seq<char>,
}

/// Why a board could not be built.
#[derive(Clone, Copy, Debug, PartialEq, Eq)]
pub enum BoardError {
    /// There are not as many positions as values.
    LengthMismatch,
    /// The magnitudes of the values add up to more than an `i64` holds.
    LoadTooLarge,
}

/// Why a click on a tile was turned down.
#[derive(Clone, Copy, Debug, PartialEq, Eq)]
pub enum SelectError {
    /// No tile has this id.
    InvalidTileId,
    /// The tile was consumed by an earlier combine.
    TileAlreadyUsed,
}

/// The tiles of a new board: the given values at the given positions, none
/// of them used.
pub open spec fn fresh_tiles(values: Seq<i64>, points: Seq<(u64, u64)>) -> Seq<Tile> {
    Seq::new(
        values.len(),
        |i: int| Tile { id: i as usize, value: values[i], position: points[i], used: false },
    )
}

/// The state in which a game on the given tiles starts.
pub open spec fn fresh(values: Seq<i64>, points: Seq<(u64, u64)>) -> ModelView {
    ModelView {
        tiles: fresh_tiles(values, points),
        selected: None,
        page: Page::Play,
        finished: false,
        name: Seq::empty(),
    }
}

/// What a display is told about `tile` while `selected` is the selection.
pub open spec fn shown(tile: Tile, selected: Option<usize>) -> TileView {
    TileView {
        id: tile.id,
        value: tile.value,
        position: tile.position,
        used: tile.used,
        is_selected: selected == Some(tile.id),
    }
}

impl ModelView {
    /// The invariant of a game state: every tile sits at its id; the
    /// selection, if any, is a tile in play of a game that is not over; the
    /// game is over exactly when all tiles but one of at least two are used;
    /// and the board is light enough that no combine can overflow.
    pub open spec fn wf(self) -> bool {
        &&& forall|i: int| 0 <= i < self.tiles.len() ==> (#[trigger] self.tiles[i]).id == i
        &&& match self.selected {
            Some(a) => a < self.tiles.len() && !self.tiles[a as int].used && !self.finished,
            None => true,
        }
        &&& self.finished <==> self.tiles.len() >= 2 && used_count(self.tiles) + 1
            == self.tiles.len()
        &&& load(self.tiles) <= i64::MAX
    }

    /// Whether `id` names a tile that is still in play.
    pub open spec fn selectable(self, id: usize) -> bool {
        id < self.tiles.len() && !self.tiles[id as int].used
    }

    /// The tiles after tile `kept` has taken tile `taken`: the first shows the
    /// difference, the second is used. On a valid board the difference of two
    /// tiles in play always fits in an `i64`.
    pub open spec fn combined_tiles(self, kept: usize, taken: usize) -> Seq<Tile> {
        let a = self.tiles[kept as int];
        let b = self.tiles[taken as int];
        self.tiles.update(kept as int, Tile { value: (a.value - b.value) as i64, ..a }).update(
            taken as int,
            Tile { used: true, ..b },
        )
    }

    /// The state after a click on tile `id`.
    pub open spec fn select(self, id: usize) -> ModelView {
        if self.finished {
            self
        } else {
            match self.selected {
                None => ModelView { selected: Some(id), ..self },
                Some(a) => if a == id {
                    ModelView { selected: None, ..self }
                } else {
                    let tiles = self.combined_tiles(a, id);
                    ModelView {
                        tiles,
                        selected: None,
                        finished: used_count(tiles) + 1 == tiles.len(),
                        ..self
                    }
                },
            }
        }
    }

    /// The state after `msg`.
    pub open spec fn step(self, msg: Msg) -> ModelView {
        match msg {
            Msg::Clicked(id) => self.select(id),
            Msg::ClickedPlay => ModelView { page: Page::Play, ..self },
            Msg::ClickedRanking => ModelView { page: Page::Ranking, ..self },
            Msg::ClickedRollBack => self,
            Msg::ClickedSendButton => self,
            Msg::ChangedTextArea(text) => ModelView { name: text@, ..self },
        }
    }

    /// Whether `msg` may be applied in this state: a click must name a tile
    /// that is still in play, unless the game is over and clicks are ignored.
    pub open spec fn accepts(self, msg: Msg) -> bool {
        match msg {
            Msg::Clicked(id) => self.finished || self.selectable(id),
            _ => true,
        }
    }

    /// The tiles still in play, in board order, as a display is told of them.
    pub open spec fn visible(self) -> Seq<TileView> {
        visible_of(self.tiles, self.selected)
    }
}

/// Those of `tiles` that are not used, in order, as a display is told of them
/// while `selected` is the selection.
pub open spec fn visible_of(tiles: Seq<Tile>, selected: Option<usize>) -> Seq<TileView> {
    tiles.filter(|t: Tile| !t.used).map_values(|t: Tile| shown(t, selected))
}

/// One more tile adds its entry to the visible ones if it is in play, and
/// nothing otherwise.
proof fn lemma_visible_push(tiles: Seq<Tile>, selected: Option<usize>, tile: Tile)
    ensures
        visible_of(tiles.push(tile), selected) == if tile.used {
            visible_of(tiles, selected)
        } else {
            visible_of(tiles, selected).push(shown(tile, selected))
        },
{
    let in_play = |t: Tile| !t.used;
    let told = |t: Tile| shown(t, selected);
    tiles.lemma_filter_push(tile, in_play);
    if !tile.used {
        tiles.filter(in_play).lemma_push_map_commute(told, tile);
    }
}

/// The state of one play-through.
#[derive(Debug)]
pub struct Model {
    tiles: Vec<Tile>,
    selected: Option<usize>,
    page: Page,
    is_finished: bool,
    name: String,
}

impl View for Model {
    type V = ModelView;

    closed spec fn view(&self) -> ModelView {
        ModelView {
            tiles: self.tiles@,
            selected: self.selected,
            page: self.page,
            finished: self.is_finished,
            name: self.name@,
        }
    }
}

/// Whether the magnitudes of `values` add up to no more than an `i64` holds.
fn load_fits(values: &Vec<i64>, Ghost(points): Ghost<Seq<(u64, u64)>>) -> (fits: bool)
    ensures
        fits <==> load(fresh_tiles(values@, points)) <= i64::MAX,
{
    let ghost tiles = fresh_tiles(values@, points);
    let mut total: u64 = 0;
    let mut i: usize = 0;
    while i < values.len()
        invariant
            i <= values.len(),
            tiles == fresh_tiles(values@, points),
            total == load_among(tiles, i as int),
            total <= i64::MAX,
        decreases values.len() - i,
    {
        let m = magnitude_of(values[i]);
        if m > 9223372036854775807u64 - total {
            proof {
                lemma_among_grows(tiles, i as int + 1, tiles.len() as int);
            }
            return false;
        }
        total = total + m;
        i = i + 1;
    }
    true
}

impl Model {
    /// The invariant of a game state.
    pub open spec fn wf(&self) -> bool {
        self@.wf()
    }

    /// Builds the starting state from tiles that are known to fit.
    pub(crate) fn assemble(values: Vec<i64>, points: Vec<(u64, u64)>) -> (model: Model)
        requires
            values.len() == points.len(),
            load(fresh_tiles(values@, points@)) <= i64::MAX,
        ensures
            model.wf(),
            model@ == fresh(values@, points@),
    {
        let ghost target = fresh_tiles(values@, points@);
        let mut tiles: Vec<Tile> = Vec::new();
        let mut i: usize = 0;
        while i < values.len()
            invariant
                i <= values.len(),
                values.len() == points.len(),
                target == fresh_tiles(values@, points@),
                tiles@ == target.take(i as int),
            decreases values.len() - i,
        {
            tiles.push(Tile { id: i, value: values[i], position: points[i], used: false });
            i = i + 1;
            assert(tiles@ =~= target.take(i as int));
        }
        assert(tiles@ =~= target);
        proof {
            lemma_among_bounds(target, target.len() as int);
        }
        Model { tiles, selected: None, page: Page::Play, is_finished: false, name: String::new() }
    }

    /// Starts a game on the given values at the given positions.
    ///
    /// Fails when the two lists differ in length, or when the values are so
    /// large that some sequence of combines could overflow.
    pub fn new(values: Vec<i64>, points: Vec<(u64, u64)>) -> (built: Result<Model, BoardError>)
        ensures
            match built {
                Ok(model) => {
                    &&& values.len() == points.len()
                    &&& load(fresh_tiles(values@, points@)) <= i64::MAX
                    &&& model.wf()
                    &&& model@ == fresh(values@, points@)
                },
                Err(BoardError::LengthMismatch) => values.len() != points.len(),
                Err(BoardError::LoadTooLarge) => {
                    &&& values.len() == points.len()
                    &&& load(fresh_tiles(values@, points@)) > i64::MAX
                },
            },
    {
        if values.len() != points.len() {
            return Err(BoardError::LengthMismatch);
        }
        if !load_fits(&values, Ghost(points@)) {
            return Err(BoardError::LoadTooLarge);
        }
        Ok(Model::assemble(values, points))
    }

    /// The tiles, in board order.
    pub fn tiles(&self) -> (tiles: &Vec<Tile>)
        ensures
            tiles@ == self@.tiles,
    {
        &self.tiles
    }

    /// The number of tiles, used or not.
    pub fn len(&self) -> (n: usize)
        ensures
            n == self@.tiles.len(),
    {
        self.tiles.len()
    }

    /// The id of the selected tile, if one is selected.
    pub fn selected(&self) -> (selected: Option<usize>)
        ensures
            selected == self@.selected,
    {
        self.selected
    }

    /// The page the player is looking at.
    pub fn page(&self) -> (page: Page)
        ensures
            page == self@.page,
    {
        self.page
    }

    /// Whether the game is over.
    pub fn is_finished(&self) -> (finished: bool)
        ensures
            finished == self@.finished,
    {
        self.is_finished
    }

    /// The player's name.
    pub fn name(&self) -> (name: &String)
        ensures
            name@ == self@.name,
    {
        &self.name
    }

    /// How many tiles are used.
    pub fn count_used(&self) -> (count: usize)
        ensures
            count == used_count(self@.tiles),
    {
        let mut count: usize = 0;
        let mut i: usize = 0;
        while i < self.tiles.len()
            invariant
                i <= self.tiles.len(),
                count == used_among(self.tiles@, i as int),
                count <= i,
            decreases self.tiles.len() - i,
        {
            if self.tiles[i].used {
                count = count + 1;
            }
            i = i + 1;
        }
        count
    }

    /// Whether a click on tile `id` would be accepted.
    pub fn can_select(&self, id: usize) -> (ok: bool)
        ensures
            ok == (self@.finished || self@.selectable(id)),
    {
        self.is_finished || (id < self.tiles.len() && !self.tiles[id].used)
    }

    /// Applies a click on tile `id`.
    ///
    /// With nothing selected the tile becomes the selection. A click on the
    /// selection clears it. A click on another tile combines the two: the
    /// selected tile takes the difference, the clicked one is used up, and
    /// the game is over once a single tile is left. Clicks on a finished
    /// game change nothing.
    pub fn select_tile(&mut self, id: usize)
        requires
            old(self).wf(),
            old(self)@.finished || old(self)@.selectable(id),
        ensures
            final(self).wf(),
            final(self)@ == old(self)@.select(id),
    {
        if self.is_finished {
            return ;
        }
        match self.selected {
            None => {
                self.selected = Some(id);
            },
            Some(a) => {
                if a != id {
                    let ghost before = self.tiles@;
                    let kept = self.tiles[a];
                    let taken = self.tiles[id];
                    proof {
                        lemma_combine_fits(before, a as int, id as int);
                    }
                    self.tiles.set(a, Tile { value: kept.value - taken.value, ..kept });
                    self.tiles.set(id, Tile { used: true, ..taken });
                    self.selected = None;
                    let used = self.count_used();
                    let n = self.tiles.len();
                    proof {
                        lemma_among_bounds(self.tiles@, n as int);
                        assert(!self.tiles@[a as int].used);
                    }
                    self.is_finished = used + 1 == n;
                } else {
                    self.selected = None;
                }
            },
        }
    }

    /// Applies a click on tile `id` if it names a tile that is still in play,
    /// and says why not otherwise, leaving the state as it was.
    pub fn try_select_tile(&mut self, id: usize) -> (done: Result<(), SelectError>)
        requires
            old(self).wf(),
        ensures
            final(self).wf(),
            match done {
                Ok(()) => {
                    &&& old(self)@.finished || old(self)@.selectable(id)
                    &&& final(self)@ == old(self)@.select(id)
                },
                Err(SelectError::InvalidTileId) => {
                    &&& !old(self)@.finished
                    &&& id >= old(self)@.tiles.len()
                    &&& final(self)@ == old(self)@
                },
                Err(SelectError::TileAlreadyUsed) => {
                    &&& !old(self)@.finished
                    &&& id < old(self)@.tiles.len()
                    &&& old(self)@.tiles[id as int].used
                    &&& final(self)@ == old(self)@
                },
            },
    {
        if !self.is_finished {
            if id >= self.tiles.len() {
                return Err(SelectError::InvalidTileId);
            }
            if self.tiles[id].used {
                return Err(SelectError::TileAlreadyUsed);
            }
        }
        self.select_tile(id);
        Ok(())
    }

    /// What a display shows: the tiles still in play, in board order, each
    /// with a mark that says whether it is the selection.
    pub fn visible_tiles(&self) -> (list: Vec<TileView>)
        ensures
            list@ == self@.visible(),
    {
        let mut list: Vec<TileView> = Vec::new();
        let mut i: usize = 0;
        proof {
            assert(self.tiles@.take(0) =~= Seq::empty());
            assert(visible_of(Seq::empty(), self.selected) =~= Seq::empty()) by {
                reveal(Seq::filter);
            }
        }
        while i < self.tiles.len()
            invariant
                i <= self.tiles.len(),
                list@ == visible_of(self.tiles@.take(i as int), self.selected),
            decreases self.tiles.len() - i,
        {
            let tile = self.tiles[i];
            proof {
                lemma_visible_push(self.tiles@.take(i as int), self.selected, tile);
                self.tiles@.lemma_take_succ_push(i as int);
            }
            if !tile.used {
                let is_selected = match self.selected {
                    Some(a) => a == tile.id,
                    None => false,
                };
                list.push(
                    TileView {
                        id: tile.id,
                        value: tile.value,
                        position: tile.position,
                        used: tile.used,
                        is_selected,
                    },
                );
            }
            i = i + 1;
        }
        assert(self.tiles@.take(i as int) =~= self.tiles@);
        list
    }

    /// Switches to `page`. The tiles and the selection stay as they are.
    pub fn navigate(&mut self, page: Page)
        ensures
            final(self)@ == (ModelView { page, ..old(self)@ }),
    {
        self.page = page;
    }

    /// Sets the player's name to `text`, as it is.
    pub fn set_player_name(&mut self, text: String)
        ensures
            final(self)@ == (ModelView { name: text@, ..old(self)@ }),
    {
        self.name = text;
    }

    /// The score: the value of the one tile left, once the game is over.
    pub fn score(&self) -> (score: Option<i64>)
        requires
            self.wf(),
        ensures
            match score {
                Some(value) => self@.finished && exists|i: int|
                    0 <= i < self@.tiles.len() && #[trigger] is_last_tile(self@.tiles, i)
                        && value == self@.tiles[i].value,
                None => !self@.finished,
            },
    {
        if !self.is_finished {
            return None;
        }
        proof {
            lemma_one_left(self@.tiles);
        }
        let mut i: usize = 0;
        while i < self.tiles.len()
            invariant
                self.is_finished,
                i <= self.tiles.len(),
                forall|j: int| 0 <= j < i ==> (#[trigger] self.tiles@[j]).used,
                exists|k: int| 0 <= k < self.tiles@.len() && #[trigger] is_last_tile(self.tiles@, k),
            decreases self.tiles.len() - i,
        {
            if !self.tiles[i].used {
                proof {
                    let k = choose|k: int|
                        0 <= k < self.tiles@.len() && is_last_tile(self.tiles@, k);
                    assert(k == i);
                    assert(is_last_tile(self@.tiles, i as int));
                }
                return Some(self.tiles[i].value);
            }
            i = i + 1;
        }
        proof {
            let k = choose|k: int| 0 <= k < self.tiles@.len() && is_last_tile(self.tiles@, k);
            assert(self.tiles@[k].used);
        }
        None
    }
}

/// Applies one action to the state.
///
/// Clicks select, deselect or combine; the two page actions switch the page;
/// a text change replaces the player's name; taking back a move and
/// submitting the score change nothing.
pub fn update(msg: Msg, model: &mut Model)
    requires
        old(model).wf(),
        old(model)@.accepts(msg),
    ensures
        final(model).wf(),
        final(model)@ == old(model)@.step(msg),
{
    match msg {
        Msg::Clicked(id) => model.select_tile(id),
        Msg::ClickedPlay => model.navigate(Page::Play),
        Msg::ClickedRanking => model.navigate(Page::Ranking),
        Msg::ClickedRollBack => {},
        Msg::ClickedSendButton => {},
        Msg::ChangedTextArea(text) => model.set_player_name(text),
    }
}

/// Tile `i` is the only one that is not used.
pub open spec fn is_last_tile(tiles: Seq<Tile>, i: int) -> bool {
    &&& !tiles[i].used
    &&& forall|j: int| 0 <= j < tiles.len() && j != i ==> (#[trigger] tiles[j]).used
}

/// Among tiles of which all but one are used, exactly one is left.
pub proof fn lemma_one_left(tiles: Seq<Tile>)
    requires
        used_count(tiles) + 1 == tiles.len(),
    ensures
        exists|i: int| 0 <= i < tiles.len() && #[trigger] is_last_tile(tiles, i),
{
    let n = tiles.len() as int;
    lemma_unused_at(tiles, n);
    let i = choose|i: int|
        0 <= i < n && !tiles[i].used && forall|j: int|
            0 <= j < n && j != i ==> (#[trigger] tiles[j]).used;
    assert(is_last_tile(tiles, i));
}

/// Where all but one of the first `n` tiles are used, one of them is the
/// only unused one.
proof fn lemma_unused_at(tiles: Seq<Tile>, n: int)
    requires
        0 <= n <= tiles.len(),
        used_among(tiles, n) + 1 == n,
    ensures
        exists|i: int|
            0 <= i < n && !tiles[i].used && forall|j: int|
                0 <= j < n && j != i ==> (#[trigger] tiles[j]).used,
    decreases n,
{
    lemma_among_bounds(tiles, n - 1);
    if tiles[n - 1].used {
        lemma_unused_at(tiles, n - 1);
        let i = choose|i: int|
            0 <= i < n - 1 && !tiles[i].used && forall|j: int|
                0 <= j < n - 1 && j != i ==> (#[trigger] tiles[j]).used;
        assert(0 <= i < n && !tiles[i].used && forall|j: int|
            0 <= j < n && j != i ==> (#[trigger] tiles[j]).used);
    } else {
        assert(0 <= n - 1 < n && !tiles[n - 1].used && forall|j: int|
            0 <= j < n && j != n - 1 ==> (#[trigger] tiles[j]).used);
    }
}

/// A combine of two distinct unused tiles cannot overflow, and leaves a
/// board that is no heavier.
pub proof fn lemma_combine_fits(tiles: Seq<Tile>, kept: int, taken: int)
    requires
        0 <= kept < tiles.len(),
        0 <= taken < tiles.len(),
        kept != taken,
        !tiles[kept].used,
        !tiles[taken].used,
        load(tiles) <= i64::MAX,
    ensures
        i64::MIN < tiles[kept].value - tiles[taken].value <= i64::MAX,
        load(
            tiles.update(
                kept,
                Tile { value: (tiles[kept].value - tiles[taken].value) as i64, ..tiles[kept] },
            ).update(taken, Tile { used: true, ..tiles[taken] }),
        ) <= load(tiles),
        used_count(
            tiles.update(
                kept,
                Tile { value: (tiles[kept].value - tiles[taken].value) as i64, ..tiles[kept] },
            ).update(taken, Tile { used: true, ..tiles[taken] }),
        ) == used_count(tiles) + 1,
{
    let n = tiles.len() as int;
    let a = tiles[kept];
    let b = tiles[taken];
    let gone = Tile { used: true, ..b };
    let without = tiles.update(taken, gone);
    lemma_among_update(tiles, taken, gone, n);
    lemma_among_bounds(without, n);
    assert(!without[kept].used);
    assert(magnitude(a.value as int) + magnitude(b.value as int) <= load(tiles));
    let merged = Tile { value: (a.value - b.value) as i64, ..a };
    lemma_among_update(without, kept, merged, n);
    assert(without.update(kept, merged) =~= tiles.update(kept, merged).update(taken, gone));
}

} // verus!
