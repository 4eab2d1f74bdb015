//! The game itself: two boards of equal extents, the current generation and
//! the one before it, which swap their parts at every step.

use vstd::prelude::*;
use crate::board::{blank, cells_of, clear_board, is_board, make_board};
use crate::generation::{generations, height, live_neighbors, next_cell, next_generation, width};
use crate::rule::lives_on;
use crate::seed::{all_on_board, first_off_board, lemma_seeded_empty, lemma_seeded_push, seeded};
use crate::topology::BoardSize;

verus! {

/// What a [`Game`] is to its callers: its extents and its two boards.
pub struct GameView {
    /// The number of columns.
    pub x_size: int,
    /// The number of rows.
    pub y_size: int,
    /// The generation before the current one, or what a seeding or a
    /// clearing left in its place.
    pub previous: Seq<Seq<bool>>,
    /// The current generation, column by column.
    pub current: Seq<Seq<bool>>,
}

/// Why a seeding was refused.
#[derive(Clone, Copy, Debug, PartialEq, Eq, Structural)]
pub enum GameError {
    /// The coordinate `(x, y)` is not a cell of the board.
    OutOfRange { x: usize, y: usize },
}

/// A game of life on a torus of fixed extents.
pub struct Game {
    size: BoardSize,
    // previous and current are the game boards. In order to make (x,y) coordinates make sense with
    // the nested vectors as vec[x][y] then the outer vec represents the columns (x values) and the
    // inner vec represents the rows (y values).
    previous: Vec<Vec<bool>>,
    current: Vec<Vec<bool>>,
}

impl View for Game {
    type V = GameView;

    closed spec fn view(&self) -> GameView {
        GameView {
            x_size: self.size.x_size as int,
            y_size: self.size.y_size as int,
            previous: cells_of(self.previous@),
            current: cells_of(self.current@),
        }
    }
}

impl Game {
    /// The invariant of a game: both boards are full boards of the game's
    /// extents. Every operation keeps it.
    pub open spec fn wf(&self) -> bool {
        &&& is_board(self@.previous, self@.x_size, self@.y_size)
        &&& is_board(self@.current, self@.x_size, self@.y_size)
    }

    /// What the invariant says of the stored columns.
    proof fn lemma_columns(&self)
        requires
            self.wf(),
        ensures
            self.previous@.len() == self.size.x_size,
            self.current@.len() == self.size.x_size,
            forall|i: int|
                0 <= i < self.size.x_size ==> (#[trigger] self.previous@[i])@.len()
                    == self.size.y_size,
            forall|i: int|
                0 <= i < self.size.x_size ==> (#[trigger] self.current@[i])@.len()
                    == self.size.y_size,
    {
        assert forall|i: int| 0 <= i < self.size.x_size implies (#[trigger] self.previous@[i])@.len()
            == self.size.y_size by {
            assert(self@.previous[i].len() == self.size.y_size);
        }
        assert forall|i: int| 0 <= i < self.size.x_size implies (#[trigger] self.current@[i])@.len()
            == self.size.y_size by {
            assert(self@.current[i].len() == self.size.y_size);
        }
    }

    /// Builds a game of `x_size` columns by `y_size` rows on which nothing
    /// lives. A zero extent is accepted and gives a game without cells, on
    /// which every step is a no-op and no coordinate is in range.
    pub fn new(x_size: usize, y_size: usize) -> (game: Game)
        ensures
            game.wf(),
            game@.x_size == x_size,
            game@.y_size == y_size,
            game@.previous == blank(x_size as int, y_size as int),
            game@.current == blank(x_size as int, y_size as int),
    {
        Game {
            size: BoardSize { x_size, y_size },
            previous: make_board(x_size, y_size),
            current: make_board(x_size, y_size),
        }
    }

    /// The number of columns.
    pub fn x_size(&self) -> (n: usize)
        ensures
            n == self@.x_size,
    {
        self.size.x_size
    }

    /// The number of rows.
    pub fn y_size(&self) -> (n: usize)
        ensures
            n == self@.y_size,
    {
        self.size.y_size
    }

    /// Run the simulation for a set number of iterations: `iters` steps, one
    /// after the other, whether or not the board still changes.
    pub fn run(&mut self, iters: usize)
        requires
            old(self).wf(),
        ensures
            final(self).wf(),
            final(self)@.x_size == old(self)@.x_size,
            final(self)@.y_size == old(self)@.y_size,
            final(self)@.current == generations(old(self)@.current, iters as nat),
            final(self)@.previous == (if iters == 0 {
                old(self)@.previous
            } else {
                generations(old(self)@.current, (iters - 1) as nat)
            }),
    {
        for done in 0..iters
            invariant
                self.wf(),
                self@.x_size == old(self)@.x_size,
                self@.y_size == old(self)@.y_size,
                self@.current == generations(old(self)@.current, done as nat),
                self@.previous == (if done == 0 {
                    old(self)@.previous
                } else {
                    generations(old(self)@.current, (done - 1) as nat)
                }),
        {
            self.iterate()
        }
    }

    /// Advances the game by one generation. The two boards swap their parts
    /// without a cell being copied: the board that was current becomes the
    /// previous one, untouched, and the other is cleared and then filled,
    /// cell by cell, with the generation that follows it.
    pub fn iterate(&mut self)
        requires
            old(self).wf(),
        ensures
            final(self).wf(),
            final(self)@.x_size == old(self)@.x_size,
            final(self)@.y_size == old(self)@.y_size,
            final(self)@.previous == old(self)@.current,
            final(self)@.current == next_generation(old(self)@.current),
    {
        // Swap the boards so we can work off the current coming into this iteration.
        std::mem::swap(&mut self.current, &mut self.previous);

        // Clear the current board (now that we've saved the current state to previous).
        clear_board(&mut self.current);

        let x_size = self.size.x_size;
        let y_size = self.size.y_size;
        for x in 0..x_size
            invariant
                self.wf(),
                x_size == self.size.x_size,
                y_size == self.size.y_size,
                self.size == old(self).size,
                self@.previous == old(self)@.current,
                forall|i: int, j: int|
                    0 <= i < x && 0 <= j < self.size.y_size ==> #[trigger] self@.current[i][j]
                        == next_cell(self@.previous, i, j),
        {
            for y in 0..y_size
                invariant
                    self.wf(),
                    x < x_size,
                    x_size == self.size.x_size,
                    y_size == self.size.y_size,
                    self.size == old(self).size,
                    self@.previous == old(self)@.current,
                    forall|i: int, j: int|
                        0 <= i < x && 0 <= j < self.size.y_size ==> #[trigger] self@.current[i][j]
                            == next_cell(self@.previous, i, j),
                    forall|j: int|
                        0 <= j < y ==> #[trigger] self@.current[x as int][j] == next_cell(
                            self@.previous,
                            x as int,
                            j,
                        ),
            {
                let ghost before = self@.current;
                proof {
                    self.lemma_columns();
                }
                self.current[x][y] = self.is_live(x, y);
                assert(self@.current =~~= before.update(
                    x as int,
                    before[x as int].update(y as int, next_cell(self@.previous, x as int, y as int)),
                ));
            }
        }
        assert(self@.current =~~= next_generation(self@.previous));
    }

    /// Whether the cell `(x, y)` is alive in the generation that follows the
    /// previous board: it is if it lives there with two or three live
    /// neighbours, or is dead there with exactly three.
    pub fn is_live(&self, x: usize, y: usize) -> (live: bool)
        requires
            self.wf(),
            x < self@.x_size,
            y < self@.y_size,
        ensures
            live == lives_on(
                self@.previous[x as int][y as int],
                live_neighbors(self@.previous, x as int, y as int),
            ),
            live == next_cell(self@.previous, x as int, y as int),
    {
        proof {
            self.lemma_columns();
            assert(width(self@.previous) == self.size.x_size);
            assert(height(self@.previous) == self.size.y_size);
        }
        let mut live_neighbors: u8 = 0;

        let (check_x, check_y) = self.size.top_left(x, y);
        if self.previous[check_x][check_y] {
            live_neighbors += 1;
        }

        let (check_x, check_y) = self.size.top(x, y);
        if self.previous[check_x][check_y] {
            live_neighbors += 1;
        }

        let (check_x, check_y) = self.size.top_right(x, y);
        if self.previous[check_x][check_y] {
            live_neighbors += 1;
        }

        let (check_x, check_y) = self.size.left(x, y);
        if self.previous[check_x][check_y] {
            live_neighbors += 1;
        }

        let (check_x, check_y) = self.size.right(x, y);
        if self.previous[check_x][check_y] {
            live_neighbors += 1;
        }

        let (check_x, check_y) = self.size.bottom_left(x, y);
        if self.previous[check_x][check_y] {
            live_neighbors += 1;
        }

        let (check_x, check_y) = self.size.bottom(x, y);
        if self.previous[check_x][check_y] {
            live_neighbors += 1;
        }

        let (check_x, check_y) = self.size.bottom_right(x, y);
        if self.previous[check_x][check_y] {
            live_neighbors += 1;
        }

        let is_live = self.previous[x][y];
        match (is_live, live_neighbors) {
            (true, 0 | 1) => false,  // live with <2 neighbors dies
            (true, 2 | 3) => true,  // live with 2 or 3 neighbors lives
            (false, 3) => true,  // dead with 3 neighbors lives
            _ => false,  // everything else dies
        }
    }

    /// Kills every cell of both boards.
    pub fn clear(&mut self)
        requires
            old(self).wf(),
        ensures
            final(self).wf(),
            final(self)@.x_size == old(self)@.x_size,
            final(self)@.y_size == old(self)@.y_size,
            final(self)@.previous == blank(old(self)@.x_size, old(self)@.y_size),
            final(self)@.current == blank(old(self)@.x_size, old(self)@.y_size),
    {
        clear_board(&mut self.current);
        clear_board(&mut self.previous);
        assert(self@.current =~~= blank(old(self)@.x_size, old(self)@.y_size));
        assert(self@.previous =~~= blank(old(self)@.x_size, old(self)@.y_size));
    }

    /// Looks for a coordinate that is not a cell of the board and reports
    /// the first one.
    fn validate(&self, pairs: &[(usize, usize)]) -> (result: Result<(), GameError>)
        ensures
            result is Ok <==> all_on_board(pairs@, self@.x_size, self@.y_size),
            result matches Err(GameError::OutOfRange { x, y }) ==> exists|k: int|
                first_off_board(pairs@, k, self@.x_size, self@.y_size) && #[trigger] pairs@[k] == (
                    x,
                    y,
                ),
    {
        for k in 0..pairs.len()
            invariant
                all_on_board(pairs@.take(k as int), self@.x_size, self@.y_size),
        {
            let (x, y) = pairs[k];
            if x >= self.size.x_size || y >= self.size.y_size {
                assert(first_off_board(pairs@, k as int, self@.x_size, self@.y_size));
                return Err(GameError::OutOfRange { x, y });
            }
            assert(pairs@.take(k as int + 1) =~= pairs@.take(k as int).push(pairs@[k as int]));
        }
        assert(pairs@.take(pairs@.len() as int) =~= pairs@);
        Ok(())
    }

    /// Brings the named cells of the current board to life.
    fn mark(&mut self, pairs: &[(usize, usize)])
        requires
            old(self).wf(),
            all_on_board(pairs@, old(self)@.x_size, old(self)@.y_size),
        ensures
            final(self).wf(),
            final(self)@.x_size == old(self)@.x_size,
            final(self)@.y_size == old(self)@.y_size,
            final(self)@.previous == old(self)@.previous,
            final(self)@.current == seeded(old(self)@.current, pairs@),
    {
        proof {
            lemma_seeded_empty(self@.current);
            assert(pairs@.take(0) =~= Seq::<(usize, usize)>::empty());
        }
        for k in 0..pairs.len()
            invariant
                self.wf(),
                self.size == old(self).size,
                all_on_board(pairs@, self@.x_size, self@.y_size),
                is_board(old(self)@.current, self@.x_size, self@.y_size),
                self@.previous == old(self)@.previous,
                self@.current == seeded(old(self)@.current, pairs@.take(k as int)),
        {
            let (x, y) = pairs[k];
            let ghost before = self@.current;
            proof {
                self.lemma_columns();
                lemma_seeded_push(old(self)@.current, pairs@.take(k as int), pairs@[k as int]);
                assert(pairs@.take(k as int + 1) =~= pairs@.take(k as int).push(pairs@[k as int]));
            }
            self.current[x][y] = true;
            assert(self@.current =~~= before.update(
                x as int,
                before[x as int].update(y as int, true),
            ));
        }
        assert(pairs@.take(pairs@.len() as int) =~= pairs@);
    }

    /// Set up a fresh state, clearing any previous state from the game board.
    ///
    /// Every coordinate is looked at before anything is changed. If one of
    /// them is not a cell of the board, the first such is returned and the
    /// game is left as it was. Otherwise both boards are cleared and the
    /// named cells are brought to life on the current board.
    pub fn clear_and_set(&mut self, pairs: &[(usize, usize)]) -> (result: Result<(), GameError>)
        requires
            old(self).wf(),
        ensures
            final(self).wf(),
            final(self)@.x_size == old(self)@.x_size,
            final(self)@.y_size == old(self)@.y_size,
            result is Ok <==> all_on_board(pairs@, old(self)@.x_size, old(self)@.y_size),
            result is Ok ==> final(self)@.previous == blank(old(self)@.x_size, old(self)@.y_size),
            result is Ok ==> final(self)@.current == seeded(
                blank(old(self)@.x_size, old(self)@.y_size),
                pairs@,
            ),
            result is Err ==> final(self)@ == old(self)@,
            result matches Err(GameError::OutOfRange { x, y }) ==> exists|k: int|
                first_off_board(pairs@, k, old(self)@.x_size, old(self)@.y_size)
                    && #[trigger] pairs@[k] == (x, y),
    {
        match self.validate(pairs) {
            Ok(()) => {
                self.clear();
                self.mark(pairs);
                Ok(())
            },
            Err(e) => Err(e),
        }
    }

    /// Brings the named cells of the current board to life, on top of what
    /// lives there already.
    ///
    /// Every coordinate is looked at before anything is changed. If one of
    /// them is not a cell of the board, the first such is returned and the
    /// game is left as it was.
    pub fn set(&mut self, pairs: &[(usize, usize)]) -> (result: Result<(), GameError>)
        requires
            old(self).wf(),
        ensures
            final(self).wf(),
            final(self)@.x_size == old(self)@.x_size,
            final(self)@.y_size == old(self)@.y_size,
            final(self)@.previous == old(self)@.previous,
            result is Ok <==> all_on_board(pairs@, old(self)@.x_size, old(self)@.y_size),
            result is Ok ==> final(self)@.current == seeded(old(self)@.current, pairs@),
            result is Err ==> final(self)@ == old(self)@,
            result matches Err(GameError::OutOfRange { x, y }) ==> exists|k: int|
                first_off_board(pairs@, k, old(self)@.x_size, old(self)@.y_size)
                    && #[trigger] pairs@[k] == (x, y),
    {
        match self.validate(pairs) {
            Ok(()) => {
                self.mark(pairs);
                Ok(())
            },
            Err(e) => Err(e),
        }
    }

    /// Hands out the cell `(x, y)` of the current board for the caller to
    /// read and to write. Nothing else of the game changes with it.
    pub fn cell(&mut self, x: usize, y: usize) -> (cell: &mut bool)
        requires
            old(self).wf(),
            x < old(self)@.x_size,
            y < old(self)@.y_size,
        ensures
            *cell == old(self)@.current[x as int][y as int],
            final(self).wf(),
            final(self)@.x_size == old(self)@.x_size,
            final(self)@.y_size == old(self)@.y_size,
            final(self)@.previous == old(self)@.previous,
            final(self)@.current == old(self)@.current.update(
                x as int,
                old(self)@.current[x as int].update(y as int, *final(cell)),
            ),
    {
        proof {
            self.lemma_columns();
        }
        &mut self.current[x][y]
    }

    /// The current board, column by column.
    pub fn current(&self) -> (board: &Vec<Vec<bool>>)
        ensures
            cells_of(board@) == self@.current,
    {
        &self.current
    }

    /// The previous board, column by column.
    pub fn previous(&self) -> (board: &Vec<Vec<bool>>)
        ensures
            cells_of(board@) == self@.previous,
    {
        &self.previous
    }
}

} // verus!
