//! What holds of every board and of every game played on it.

use crate::action::Msg;
use crate::board::{board_of, BoardConfig};
use crate::model::{is_last_tile, lemma_combine_fits, lemma_one_left, shown, Model, ModelView};
use crate::tile::{lemma_among_bounds, used_count, Tile};
use vstd::prelude::*;

verus! {

/// The state after the actions `msgs`, applied in order.
pub open spec fn run(start: ModelView, msgs: Seq<Msg>) -> ModelView
    decreases msgs.len(),
{
    if msgs.len() == 0 {
        start
    } else {
        run(start, msgs.drop_last()).step(msgs.last())
    }
}

/// Whether each of `msgs` may be applied in the state that it meets.
pub open spec fn playable(start: ModelView, msgs: Seq<Msg>) -> bool
    decreases msgs.len(),
{
    msgs.len() == 0 || {
        &&& playable(start, msgs.drop_last())
        &&& run(start, msgs.drop_last()).accepts(msgs.last())
    }
}

/// Two boards generated from the same configuration are the same board:
/// the same values at the same positions, in the same order.
pub proof fn generation_is_deterministic(
    first: BoardConfig,
    second: BoardConfig,
    a: Model,
    b: Model,
)
    requires
        first@ == second@,
        a@ == board_of(first@),
        b@ == board_of(second@),
    ensures
        a@ == b@,
        a@.tiles == b@.tiles,
{
}

/// An action leaves a valid state valid, keeps the number of tiles, and
/// keeps every tile's id and position.
pub proof fn step_keeps_board(state: ModelView, msg: Msg)
    requires
        state.wf(),
        state.accepts(msg),
    ensures
        state.step(msg).wf(),
        state.step(msg).tiles.len() == state.tiles.len(),
        forall|i: int|
            0 <= i < state.tiles.len() ==> {
                &&& (#[trigger] state.step(msg).tiles[i]).id == state.tiles[i].id
                &&& state.step(msg).tiles[i].position == state.tiles[i].position
            },
{
    match msg {
        Msg::Clicked(id) => {
            if !state.finished {
                if let Some(a) = state.selected {
                    if a != id {
                        lemma_combine_fits(state.tiles, a as int, id as int);
                        let tiles = state.combined_tiles(a, id);
                        lemma_among_bounds(tiles, tiles.len() as int);
                        assert(!tiles[a as int].used);
                    }
                }
            }
        },
        _ => {},
    }
}

/// A game keeps a valid state valid, whatever is played.
pub proof fn run_keeps_board(start: ModelView, msgs: Seq<Msg>)
    requires
        start.wf(),
        playable(start, msgs),
    ensures
        run(start, msgs).wf(),
        run(start, msgs).tiles.len() == start.tiles.len(),
    decreases msgs.len(),
{
    if msgs.len() > 0 {
        run_keeps_board(start, msgs.drop_last());
        step_keeps_board(run(start, msgs.drop_last()), msgs.last());
    }
}

/// No action brings a used tile back into play.
pub proof fn used_stays_used_in_step(state: ModelView, msg: Msg, i: int)
    requires
        state.wf(),
        state.accepts(msg),
        0 <= i < state.tiles.len(),
        state.tiles[i].used,
    ensures
        state.step(msg).tiles[i].used,
{
}

/// Once a tile is used it stays used, whatever is played afterwards.
pub proof fn used_stays_used(start: ModelView, msgs: Seq<Msg>, i: int)
    requires
        start.wf(),
        playable(start, msgs),
        0 <= i < start.tiles.len(),
        start.tiles[i].used,
    ensures
        run(start, msgs).tiles[i].used,
    decreases msgs.len(),
{
    if msgs.len() > 0 {
        used_stays_used(start, msgs.drop_last(), i);
        run_keeps_board(start, msgs.drop_last());
        used_stays_used_in_step(run(start, msgs.drop_last()), msgs.last(), i);
    }
}

/// After any game at most one tile is selected, and the selected tile is in
/// play: a display marks no two tiles, and marks no used tile.
pub proof fn selection_is_single_and_in_play(start: ModelView, msgs: Seq<Msg>)
    requires
        start.wf(),
        playable(start, msgs),
    ensures
        match run(start, msgs).selected {
            Some(a) => run(start, msgs).selectable(a),
            None => true,
        },
        forall|i: int, j: int|
            0 <= i < start.tiles.len() && 0 <= j < start.tiles.len() && (#[trigger] shown(
                run(start, msgs).tiles[i],
                run(start, msgs).selected,
            )).is_selected && (#[trigger] shown(
                run(start, msgs).tiles[j],
                run(start, msgs).selected,
            )).is_selected ==> i == j && !run(start, msgs).tiles[i].used,
{
    run_keeps_board(start, msgs);
}

/// On a board of any size but one, the game is over exactly when all tiles
/// but one are used.
pub proof fn finished_iff_one_left(start: ModelView, msgs: Seq<Msg>)
    requires
        start.wf(),
        playable(start, msgs),
        start.tiles.len() != 1,
    ensures
        run(start, msgs).finished <==> used_count(run(start, msgs).tiles) == start.tiles.len()
            - 1,
{
    run_keeps_board(start, msgs);
}

/// A game that is over stays over, and nothing about its tiles changes.
pub proof fn finished_stays_finished(start: ModelView, msgs: Seq<Msg>)
    requires
        start.wf(),
        playable(start, msgs),
        start.finished,
    ensures
        run(start, msgs).finished,
        run(start, msgs).tiles == start.tiles,
        run(start, msgs).selected == start.selected,
    decreases msgs.len(),
{
    if msgs.len() > 0 {
        finished_stays_finished(start, msgs.drop_last());
    }
}

/// When the game is over exactly one tile is left, so the score, which is
/// that tile's value, is well defined.
pub proof fn score_is_well_defined(state: ModelView)
    requires
        state.wf(),
        state.finished,
    ensures
        exists|i: int| 0 <= i < state.tiles.len() && #[trigger] is_last_tile(state.tiles, i),
        forall|i: int, j: int|
            0 <= i < state.tiles.len() && 0 <= j < state.tiles.len() && #[trigger] is_last_tile(
                state.tiles,
                i,
            ) && #[trigger] is_last_tile(state.tiles, j) ==> i == j,
{
    lemma_one_left(state.tiles);
}

/// Selecting one tile and then another combines them: the first shows the
/// difference of the two values, the second is used, and every other tile
/// is as it was.
pub proof fn select_then_select_combines(state: ModelView, first: usize, second: usize)
    requires
        state.wf(),
        !state.finished,
        state.selected is None,
        state.selectable(first),
        state.selectable(second),
        first != second,
    ensures
        state.select(first).selected == Some(first),
        state.select(first).tiles == state.tiles,
        ({
            let after = state.select(first).select(second);
            let a = state.tiles[first as int];
            let b = state.tiles[second as int];
            &&& after.selected is None
            &&& after.tiles.len() == state.tiles.len()
            &&& after.tiles[first as int].value == a.value - b.value
            &&& after.tiles[first as int] == (Tile { value: after.tiles[first as int].value, ..a })
            &&& after.tiles[second as int] == (Tile { used: true, ..b })
            &&& forall|i: int|
                0 <= i < state.tiles.len() && i != first && i != second
                    ==> #[trigger] after.tiles[i] == state.tiles[i]
            &&& after.page == state.page
            &&& after.name == state.name
        }),
{
    lemma_combine_fits(state.tiles, first as int, second as int);
}

/// Selecting the selected tile again clears the selection and changes
/// nothing else.
pub proof fn reselect_clears_selection(state: ModelView, id: usize)
    requires
        state.wf(),
        state.selected == Some(id),
    ensures
        state.select(id) == (ModelView { selected: None, ..state }),
{
}

} // verus!
