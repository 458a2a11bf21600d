//! The game and its operations.
use crate::bits::{bit, holds, lemma_bit_single, lemma_empty, lemma_or, test_bit};
use crate::chooser::choose_cell;
use crate::lemmas::{
    lemma_food_drawn_frame, lemma_free_is_off_snake, lemma_restart_ok, lemma_snake_fits,
    lemma_step_keeps_wf,
};
use crate::model::{
    area, cell_at, eats, food_at, food_drawn, food_for, free_board, is_free, masks_ok, moved,
    moved_cell, on_column, restarted, shown, snake_ok, stepped, wf, Cell, GameView, StepError,
    MAX_HEALTH, MAX_SIZE, NO_CELL,
};
use std::collections::VecDeque;
use vstd::prelude::*;

verus! {

/// A snake game on a square grid of side `size`.
pub struct Game {
    size: u8,
    done: bool,
    score: u8,
    health: i8,
    starting_idx: u8,
    body_list: VecDeque<u8>,
    snake_head_board: u128,
    snake_body_board: u128,
    food_board: u128,
    first_column: u128,
    last_column: u128,
    first_row: u128,
    msb_board: u128,
}

impl View for Game {
    type V = GameView;

    closed spec fn view(&self) -> GameView {
        GameView {
            size: self.size,
            done: self.done,
            score: self.score,
            health: self.health,
            start: self.starting_idx,
            history: self.body_list@,
            head: self.snake_head_board,
            body: self.snake_body_board,
            food: self.food_board,
            first_column: self.first_column,
            last_column: self.last_column,
            first_row: self.first_row,
            high_bits: self.msb_board,
        }
    }
}

impl Game {
    /// A new game on a grid of side `size`: the snake is one cell long and
    /// sits on the middle cell, and food lies on a free cell.
    pub fn new(size: u8) -> (game: Game)
        requires
            1 <= size <= MAX_SIZE,
        ensures
            game@.size == size,
            wf(game@),
            game@ == (GameView { food: game@.food, ..restarted(game@) }),
            food_drawn(game@, game@.food),
    {
        assert(size <= size * size <= 121) by (nonlinear_arith)
            requires
                1 <= size <= 11,
        ;
        let cells: u8 = size * size;
        let starting_idx: u8 = cells / 2;
        let first_column = Self::column_mask(size, size - 1);
        let last_column = Self::column_mask(size, 0);
        let first_row = Self::range_mask(cells - size, cells);
        let msb_board = Self::range_mask(cells, 128);
        let mut body_list: VecDeque<u8> = VecDeque::new();
        body_list.push_back(starting_idx);
        let mut game = Game {
            size,
            done: false,
            score: 0,
            health: MAX_HEALTH,
            starting_idx,
            body_list,
            snake_head_board: 1u128 << starting_idx,
            snake_body_board: 0,
            food_board: 0,
            first_column,
            last_column,
            first_row,
            msb_board,
        };
        proof {
            lemma_restart_ok(game@);
        }
        let ghost before = game@;
        game.get_food();
        proof {
            lemma_food_drawn_frame(before, game@, game@.food);
        }
        game
    }

    /// Advances the game by one tick. Action 0 moves the head left (one cell
    /// index up), 1 right (one index down), 2 up a row and 3 down a row. The
    /// old head joins the body; on food the snake grows, scores and is fed,
    /// else it loses one health and its oldest cell. The episode ends on a
    /// collision with the body, on leaving the grid, or at health zero.
    ///
    /// Any other action code is refused, and so is a step after the end of
    /// the episode; the game is then left as it was.
    pub fn step(&mut self, action: u8) -> (outcome: Result<(), StepError>)
        requires
            wf(old(self)@),
        ensures
            wf(final(self)@),
            outcome == (if action > 3 {
                Err::<(), StepError>(StepError::InvalidAction)
            } else if old(self)@.done {
                Err::<(), StepError>(StepError::EpisodeOver)
            } else {
                Ok::<(), StepError>(())
            }),
            outcome is Err ==> final(self)@ == old(self)@,
            outcome is Ok ==> stepped(old(self)@, action, final(self)@),
    {
        if action > 3 {
            return Err(StepError::InvalidAction);
        }
        if self.done {
            return Err(StepError::EpisodeOver);
        }
        proof {
            lemma_snake_fits(self@);
        }
        let size = self.size;
        let old_head = self.snake_head_board;
        let len = self.body_list.len();
        let h: u8 = self.body_list[len - 1];
        assert(h < area(size));
        let new_head: u128;
        let idx: u8;
        if action == 0 {
            new_head = old_head << 1u8;
            idx = h + 1;
        } else if action == 1 {
            new_head = old_head >> 1u8;
            idx = if h >= 1 {
                h - 1
            } else {
                NO_CELL
            };
        } else if action == 2 {
            new_head = old_head << size;
            idx = if h + size < 128 {
                h + size
            } else {
                NO_CELL
            };
        } else {
            new_head = old_head >> size;
            idx = if h >= size {
                h - size
            } else {
                NO_CELL
            };
        }
        assert(new_head == moved(old(self)@.head, action, size));
        assert(idx == moved_cell(h, action, size));
        self.body_list.push_back(idx);
        self.snake_body_board = self.snake_body_board | old_head;
        self.snake_head_board = new_head;
        let ghost moved_on = self@;
        if new_head & self.food_board != 0 {
            self.get_food();
            self.health = MAX_HEALTH;
            self.score = self.score + 1;
        } else {
            self.health = self.health - 1;
            match self.body_list.pop_front() {
                Some(tail) => {
                    assert(tail == old(self)@.history[0]);
                    self.snake_body_board = self.snake_body_board ^ (1u128 << tail);
                },
                None => {},
            }
            assert(self@.history =~= old(self)@.history.push(idx).drop_first());
        }
        if new_head & self.snake_body_board != 0 {
            self.done = true;
        } else if old_head & self.first_column != 0 && action == 0 {
            self.done = true;
        } else if old_head & self.last_column != 0 && action == 1 {
            self.done = true;
        } else if old_head & self.first_row != 0 && action == 2 {
            self.done = true;
        } else if new_head == 0 {
            self.done = true;
        } else if self.health <= 0 {
            self.done = true;
        }
        proof {
            if eats(old(self)@, action) {
                lemma_food_drawn_frame(moved_on, self@, self@.food);
            }
            assert(stepped(old(self)@, action, self@));
            lemma_step_keeps_wf(old(self)@, action, self@);
        }
        Ok(())
    }

    /// Starts a new episode on the same grid: the snake is one cell long and
    /// sits on the middle cell, and food lies on a free cell.
    pub fn reset(&mut self)
        requires
            wf(old(self)@),
        ensures
            wf(final(self)@),
            final(self)@ == (GameView { food: final(self)@.food, ..restarted(old(self)@) }),
            food_drawn(final(self)@, final(self)@.food),
    {
        assert(area(self.size) / 2 <= 60) by (nonlinear_arith)
            requires
                1 <= self.size <= 11,
        ;
        self.snake_head_board = 1u128 << self.starting_idx;
        self.score = 0;
        self.done = false;
        self.health = MAX_HEALTH;
        self.snake_body_board = 0;
        self.body_list.clear();
        self.body_list.push_back(self.starting_idx);
        self.food_board = 0;
        proof {
            assert(self@ =~= GameView { food: 0, ..restarted(old(self)@) });
            lemma_restart_ok(self@);
        }
        let ghost before = self@;
        self.get_food();
        proof {
            lemma_food_drawn_frame(before, self@, self@.food);
        }
    }

    /// Places new food on a free cell drawn at random; without a free cell
    /// the board is left without food.
    pub fn get_food(&mut self)
        ensures
            final(self)@ == (GameView { food: final(self)@.food, ..old(self)@ }),
            food_drawn(old(self)@, final(self)@.food),
            wf(old(self)@) ==> wf(final(self)@),
    {
        let candidates = self.free_cells();
        let mut rng = rand::thread_rng();
        let pick = choose_cell(&candidates, &mut rng);
        proof {
            match pick {
                Some(c) => {
                    let k = choose|k: int| 0 <= k < candidates@.len() && candidates@[k] == c;
                    assert(is_free(self@, candidates@[k]));
                },
                None => {
                    assert forall|i: u8| !#[trigger] is_free(self@, i) by {
                        if is_free(self@, i) {
                            assert(candidates@.contains(i));
                        }
                    }
                },
            }
        }
        self.place_food(pick);
    }

    /// Puts the food on the drawn cell `pick` if that cell is free, and says
    /// whether it did. A draw of nothing leaves the board without food; a
    /// drawn cell that is not free leaves the food where it was.
    pub fn place_food(&mut self, pick: Option<u8>) -> (placed: bool)
        ensures
            placed == (pick matches Some(i) && is_free(old(self)@, i)),
            final(self)@ == (GameView { food: food_for(old(self)@, pick), ..old(self)@ }),
            wf(old(self)@) ==> wf(final(self)@),
    {
        match pick {
            Some(i) => {
                if i < 128 {
                    let free: u128 = !(self.snake_body_board | self.snake_head_board
                        | self.msb_board);
                    if test_bit(free, i) {
                        self.food_board = 1u128 << i;
                        proof {
                            if masks_ok(old(self)@) && snake_ok(old(self)@) {
                                lemma_free_is_off_snake(old(self)@, i);
                                assert(food_at(self@, i));
                            }
                        }
                        return true;
                    }
                }
                false
            },
            None => {
                self.food_board = 0;
                false
            },
        }
    }

    /// The free cells in ascending order: the grid cells that neither the
    /// head nor the body covers.
    pub fn free_cells(&self) -> (list: Vec<u8>)
        ensures
            forall|k: int| 0 <= k < list@.len() ==> is_free(self@, #[trigger] list@[k]),
            forall|i: u8| #[trigger] is_free(self@, i) ==> list@.contains(i),
            forall|j: int, k: int| 0 <= j < k < list@.len() ==> list@[j] < list@[k],
    {
        let free: u128 = !(self.snake_body_board | self.snake_head_board | self.msb_board);
        let mut list: Vec<u8> = Vec::new();
        let mut at: u8 = 0;
        while at < 128
            invariant
                at <= 128,
                free == free_board(self@),
                forall|k: int|
                    0 <= k < list@.len() ==> (#[trigger] list@[k]) < at && is_free(self@, list@[k]),
                forall|i: u8| i < at && #[trigger] is_free(self@, i) ==> list@.contains(i),
                forall|j: int, k: int| 0 <= j < k < list@.len() ==> list@[j] < list@[k],
            decreases 128 - at,
        {
            let ghost before = list@;
            if test_bit(free, at) {
                list.push(at);
                proof {
                    assert(list@[before.len() as int] == at);
                }
            }
            proof {
                assert forall|i: u8| i < at + 1 && #[trigger] is_free(self@, i) implies list@.contains(
                    i,
                ) by {
                    if i < at {
                        let k = choose|k: int| 0 <= k < before.len() && before[k] == i;
                        assert(list@[k] == i);
                    }
                }
            }
            at = at + 1;
        }
        list
    }

    /// Whether the episode is over.
    pub fn done(&self) -> (r: bool)
        ensures
            r == self@.done,
    {
        self.done
    }

    /// How often the snake has eaten in this episode.
    pub fn score(&self) -> (r: u8)
        ensures
            r == self@.score,
    {
        self.score
    }

    /// The ticks left before the snake starves.
    pub fn health(&self) -> (r: i8)
        ensures
            r == self@.health,
    {
        self.health
    }

    /// The side length of the grid.
    pub fn size(&self) -> (r: u8)
        ensures
            r == self@.size,
    {
        self.size
    }

    /// The board of the head.
    pub fn head_board(&self) -> (r: u128)
        ensures
            r == self@.head,
    {
        self.snake_head_board
    }

    /// The board of the body.
    pub fn body_board(&self) -> (r: u128)
        ensures
            r == self@.body,
    {
        self.snake_body_board
    }

    /// The board of the food.
    pub fn food_board(&self) -> (r: u128)
        ensures
            r == self@.food,
    {
        self.food_board
    }

    /// The number of cells of the snake, the head included.
    pub fn snake_len(&self) -> (r: usize)
        ensures
            r == self@.history.len(),
    {
        self.body_list.len()
    }

    /// What the position `index` of the boards shows.
    pub fn cell(&self, index: u8) -> (kind: Cell)
        ensures
            kind == shown(self@, index),
    {
        if index >= 128 {
            Cell::Empty
        } else if test_bit(self.snake_head_board, index) {
            Cell::Head
        } else if test_bit(self.food_board, index) {
            Cell::Food
        } else if test_bit(self.snake_body_board, index) {
            Cell::Body
        } else {
            Cell::Empty
        }
    }

    /// The board with the cell at offset `offset` of every row.
    fn column_mask(size: u8, offset: u8) -> (mask: u128)
        requires
            1 <= size <= MAX_SIZE,
            offset < size,
        ensures
            forall|i: u8| i < 128 ==> (#[trigger] holds(mask, i) <==> on_column(size, offset as int, i)),
    {
        let mut mask: u128 = 0;
        let mut row: u8 = 0;
        proof {
            assert forall|i: u8| i < 128 implies !#[trigger] holds(mask, i) by {
                lemma_empty(i);
            }
        }
        while row < size
            invariant
                1 <= size <= MAX_SIZE,
                offset < size,
                row <= size,
                forall|i: u8|
                    i < 128 ==> (#[trigger] holds(mask, i) <==> exists|r: u8|
                        r < row && i as int == #[trigger] cell_at(size, r, offset as int)),
            decreases size - row,
        {
            assert(size * row <= 110) by (nonlinear_arith)
                requires
                    row <= 10,
                    size <= 11,
            ;
            let idx: u8 = size * row + offset;
            let ghost before = mask;
            mask = mask | (1u128 << idx);
            proof {
                assert(idx as int == cell_at(size, row, offset as int)) by (nonlinear_arith)
                    requires
                        idx == size * row + offset,
                ;
                assert forall|i: u8| i < 128 implies (#[trigger] holds(mask, i) <==> exists|r: u8|
                    r < row + 1 && i as int == #[trigger] cell_at(size, r, offset as int)) by {
                    lemma_or(before, bit(idx), i);
                    lemma_bit_single(idx, i);
                    if holds(before, i) {
                        let r = choose|r: u8|
                            r < row && i as int == #[trigger] cell_at(size, r, offset as int);
                        assert(r < row + 1 && i as int == cell_at(size, r, offset as int));
                    }
                    if exists|r: u8|
                        r < row + 1 && i as int == #[trigger] cell_at(size, r, offset as int) {
                        let r = choose|r: u8|
                            r < row + 1 && i as int == #[trigger] cell_at(size, r, offset as int);
                        if r < row {
                            assert(holds(before, i));
                        } else {
                            assert(r == row);
                        }
                    }
                }
            }
            row = row + 1;
        }
        mask
    }

    /// The board with the cells from `lo` up to, not including, `hi`.
    fn range_mask(lo: u8, hi: u8) -> (mask: u128)
        requires
            lo <= hi <= 128,
        ensures
            forall|i: u8| i < 128 ==> (#[trigger] holds(mask, i) <==> lo <= i < hi),
    {
        let mut mask: u128 = 0;
        let mut at: u8 = lo;
        proof {
            assert forall|i: u8| i < 128 implies !#[trigger] holds(mask, i) by {
                lemma_empty(i);
            }
        }
        while at < hi
            invariant
                lo <= at <= hi <= 128,
                forall|i: u8| i < 128 ==> (#[trigger] holds(mask, i) <==> lo <= i < at),
            decreases hi - at,
        {
            let ghost before = mask;
            mask = mask | (1u128 << at);
            proof {
                assert forall|i: u8| i < 128 implies (#[trigger] holds(mask, i) <==> lo <= i < at
                    + 1) by {
                    lemma_or(before, bit(at), i);
                    lemma_bit_single(at, i);
                }
            }
            at = at + 1;
        }
        mask
    }
}

} // verus!
