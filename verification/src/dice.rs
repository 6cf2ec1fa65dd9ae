//! The seeded random generator that lays out a board.
//!
//! Everything in this module is believed, not proved: each function hands one
//! call to the `rand` crate and states what that call does. The algorithm
//! behind `StdRng` is fixed by the version of `rand` and the target it is
//! built for; what is said here of a state holds within one such build.

use rand::rngs::StdRng;
use rand::seq::SliceRandom;
use rand::Rng;
use rand::SeedableRng;
use vstd::prelude::*;

verus! {

/// `rand::rngs::StdRng`, carried through as an opaque value.
#[verifier::external_type_specification]
#[verifier::external_body]
pub struct ExStdRng(StdRng);

/// The internal state of a generator, as the bytes it is made of. Every draw
/// is a function of this state and of the draw's arguments.
pub uninterp spec fn rng_state(rng: StdRng) -> Seq<u8>;

/// The state in which `StdRng::from_seed` leaves a fresh generator.
pub uninterp spec fn seeded_state(seed: Seq<u8>) -> Seq<u8>;

/// What `Rng::gen_range` yields for `i64` bounds from a given state: the
/// number drawn, and the state afterwards.
pub uninterp spec fn i64_draw(state: Seq<u8>, low: i64, high: i64) -> (i64, Seq<u8>);

/// What `Rng::gen_range` yields for `usize` bounds from a given state on a
/// machine whose words have `bits` bits: the number drawn, and the state
/// afterwards.
pub uninterp spec fn word_draw(state: Seq<u8>, low: usize, high: usize, bits: u32) -> (
    usize,
    Seq<u8>,
);

/// What `SliceRandom::shuffle` does to a slice of `len` items from a given
/// state: for each position, the position its item came from, and the state
/// afterwards.
pub uninterp spec fn shuffle_draw(state: Seq<u8>, len: nat) -> (Seq<int>, Seq<u8>);

/// `order` rearranges `len` positions: it names each of them exactly once.
pub open spec fn is_rearrangement(order: Seq<int>, len: nat) -> bool {
    &&& order.len() == len
    &&& forall|i: int| 0 <= i < len ==> 0 <= #[trigger] order[i] < len
    &&& forall|i: int, j: int|
        0 <= i < j < len ==> #[trigger] order[i] != #[trigger] order[j]
}

/// `items` read in the given order.
pub open spec fn rearranged<T>(items: Seq<T>, order: Seq<int>) -> Seq<T> {
    Seq::new(order.len(), |i: int| items[order[i]])
}

/// `after` holds the items of `before`, each exactly once, in the given
/// order.
pub open spec fn shuffled_by<T>(before: Seq<T>, order: Seq<int>, after: Seq<T>) -> bool {
    &&& is_rearrangement(order, before.len())
    &&& after == rearranged(before, order)
}

/// Calls `StdRng::from_seed`. The new generator's state is determined by the
/// seed alone.
#[verifier::external_body]
pub(crate) fn seeded_rng(seed: [u8; 32]) -> (rng: StdRng)
    ensures
        rng_state(rng) == seeded_state(seed@),
{
    StdRng::from_seed(seed)
}

/// Calls `Rng::gen_range` with `i64` bounds. The number drawn lies in
/// `low..high` and, like the generator's next state, is determined by the
/// state before the call and the two bounds. The call panics unless
/// `low < high`. The sampler draws again until a draw is acceptable; that it
/// returns is taken for granted.
#[verifier::external_body]
pub(crate) fn draw_i64(rng: &mut StdRng, low: i64, high: i64) -> (drawn: i64)
    requires
        low < high,
    ensures
        low <= drawn < high,
        drawn == i64_draw(rng_state(*old(rng)), low, high).0,
        rng_state(*final(rng)) == i64_draw(rng_state(*old(rng)), low, high).1,
{
    rng.gen_range(low, high)
}

/// Calls `Rng::gen_range` with `usize` bounds. The number drawn lies in
/// `low..high` and, like the generator's next state, is determined by the
/// state before the call, the two bounds and the machine's word size. The
/// call panics unless `low < high`. The sampler draws again until a draw is
/// acceptable; that it returns is taken for granted.
#[verifier::external_body]
pub(crate) fn draw_usize(rng: &mut StdRng, low: usize, high: usize) -> (drawn: usize)
    requires
        low < high,
    ensures
        low <= drawn < high,
        drawn == word_draw(rng_state(*old(rng)), low, high, usize::BITS).0,
        rng_state(*final(rng)) == word_draw(rng_state(*old(rng)), low, high, usize::BITS).1,
{
    rng.gen_range(low, high)
}

/// Calls `SliceRandom::shuffle`. The items are rearranged in place, none lost
/// and none doubled; which item lands where depends on the generator's state
/// and on the number of items, never on the items themselves.
#[verifier::external_body]
pub(crate) fn shuffle_items<T>(items: &mut Vec<T>, rng: &mut StdRng)
    ensures
        shuffled_by(
            old(items)@,
            shuffle_draw(rng_state(*old(rng)), old(items)@.len()).0,
            final(items)@,
        ),
        rng_state(*final(rng)) == shuffle_draw(rng_state(*old(rng)), old(items)@.len()).1,
{
    items.shuffle(rng)
}

} // verus!
