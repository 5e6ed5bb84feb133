//! Random placement of ships, and the random shot of the computer opponent.
//!
//! Random numbers come from the `rand` crate. Nothing is proved about them
//! but their range: every contract here holds whatever numbers are drawn.

use vstd::prelude::*;
use rand::rngs::ThreadRng;
use rand::Rng;
use crate::board::{Board, BoardView};
use crate::position::{Orientation, Position, BOARD_SIZE};

verus! {

/// The thread-local generator of `rand`, opaque to the verifier.
#[verifier::external_type_specification]
#[verifier::external_body]
pub struct ExThreadRng(ThreadRng);

/// `rand::thread_rng` hands out a handle to the generator of the current
/// thread. Nothing is claimed about the handle. The first call on a thread
/// seeds the generator from the operating system and panics if that fails;
/// no argument decides this, so no `requires` can rule it out.
pub assume_specification[ rand::thread_rng ]() -> (rng: ThreadRng)
;

/// `Rng::gen_range` on the half-open range `0..bound`: the number drawn is
/// below `bound`, and that is all that is claimed of it. The range must not
/// be empty, or `gen_range` panics.
#[verifier::external_body]
fn random_below(rng: &mut ThreadRng, bound: usize) -> (n: usize)
    requires
        bound > 0,
    ensures
        n < bound,
{
    rng.gen_range(0..bound)
}

/// How often [`Board::place_ship`] draws an anchor and an orientation before
/// it gives up.
pub const MAX_PLACEMENT_ATTEMPTS: usize = 10_000;

/// No draw of [`Board::place_ship`] gave a place where the ship fits.
#[derive(Clone, Copy, PartialEq, Eq, Structural, Debug)]
pub struct PlacementFailed;

/// `post` is `pre` with one more ship of `size` cells, placed somewhere it
/// was allowed to go.
pub open spec fn placed(pre: BoardView, post: BoardView, size: nat) -> bool {
    exists|anchor: Position, orientation: Orientation|
        anchor.in_bounds() && pre.can_place(anchor, size, orientation) && post
            == #[trigger] pre.with_ship(anchor, size, orientation)
}

/// The sizes of the four ships of a fleet, in the order of placement.
pub const FLEET: [usize; 4] = [2, 3, 4, 5];

/// The sizes of the ships of a fleet as a sequence of naturals.
pub open spec fn fleet_sizes() -> Seq<nat> {
    seq![2, 3, 4, 5]
}

/// `post` is `pre` with one more ship for each of `sizes`, placed one after
/// the other, each somewhere it was allowed to go on the board as the ships
/// before it had left it.
pub open spec fn placed_all(pre: BoardView, post: BoardView, sizes: Seq<nat>) -> bool
    decreases sizes.len(),
{
    if sizes.len() == 0 {
        post == pre
    } else {
        exists|mid: BoardView|
            #![trigger placed(mid, post, sizes.last())]
            placed_all(pre, mid, sizes.drop_last()) && placed(mid, post, sizes.last())
    }
}

impl Board {
    /// Places a ship of `size` cells at random: draws an anchor and an
    /// orientation, places the ship there if it fits, and draws again if it
    /// does not, up to [`MAX_PLACEMENT_ATTEMPTS`] times. On failure the board
    /// is left as it was.
    pub fn place_ship(&mut self, size: usize) -> (result: Result<(), PlacementFailed>)
        requires
            old(self)@.wf(),
        ensures
            result is Ok ==> placed(old(self)@, final(self)@, size as nat),
            result is Err ==> final(self)@ == old(self)@,
            size == 0 ==> result is Ok,
            final(self)@.wf(),
    {
        let mut rng = rand::thread_rng();
        let mut attempts: usize = 0;
        while attempts < MAX_PLACEMENT_ATTEMPTS
            invariant
                self@ == old(self)@,
                self@.wf(),
                size == 0 ==> attempts == 0,
            decreases MAX_PLACEMENT_ATTEMPTS - attempts,
        {
            let position = Position {
                row: random_below(&mut rng, BOARD_SIZE),
                column: random_below(&mut rng, BOARD_SIZE),
            };
            let direction = Orientation::from_draw(random_below(&mut rng, 2));
            if self.place_ship_at(position, size, direction) {
                return Ok(());
            }
            attempts += 1;
        }
        Err(PlacementFailed)
    }

    /// Places the four ships of a fleet at random, smallest first. If one of
    /// them cannot be placed, the ships before it stay on the board and the
    /// rest is not attempted.
    pub fn place_fleet(&mut self) -> (result: Result<(), PlacementFailed>)
        requires
            old(self)@.wf(),
        ensures
            result is Ok ==> placed_all(old(self)@, final(self)@, fleet_sizes()),
            result is Err ==> exists|k: int|
                0 <= k < fleet_sizes().len() && placed_all(
                    old(self)@,
                    final(self)@,
                    #[trigger] fleet_sizes().take(k),
                ),
            final(self)@.wf(),
    {
        let mut i: usize = 0;
        while i < FLEET.len()
            invariant
                i <= 4,
                self@.wf(),
                placed_all(old(self)@, self@, fleet_sizes().take(i as int)),
            decreases 4 - i,
        {
            let ghost before = self@;
            let outcome = self.place_ship(FLEET[i]);
            if outcome.is_err() {
                return outcome;
            }
            proof {
                let sizes = fleet_sizes().take(i + 1);
                assert(sizes.len() == i + 1);
                assert(sizes.drop_last() =~= fleet_sizes().take(i as int));
                assert(sizes.last() == FLEET[i as int]);
                assert(placed_all(old(self)@, before, sizes.drop_last()));
                assert(placed(before, self@, sizes.last()));
                assert(placed_all(old(self)@, self@, sizes));
            }
            i += 1;
        }
        assert(fleet_sizes().take(4) =~= fleet_sizes());
        Ok(())
    }
}

/// The shot of the computer opponent: a cell of the board drawn at random,
/// with no memory of earlier shots.
pub fn opponent_move() -> (position: Position)
    ensures
        position.in_bounds(),
{
    let mut rng = rand::thread_rng();
    Position { row: random_below(&mut rng, BOARD_SIZE), column: random_below(&mut rng, BOARD_SIZE) }
}

} // verus!
