//! The mathematical model of a game: its state, its invariant and what one
//! step makes of a state.
use crate::bits::{bit, holds};
use vstd::prelude::*;

verus! {

/// Health right after eating, and at the start of an episode.
pub const MAX_HEALTH: i8 = 100;

/// The largest side length whose cells fit the 128 positions of a board.
pub const MAX_SIZE: u8 = 11;

/// What is recorded as the head's cell when the head has left the board.
pub const NO_CELL: u8 = 128;

/// What a cell of the grid shows.
#[derive(Clone, Copy, Debug, PartialEq, Eq, Structural)]
pub enum Cell {
    Head,
    Food,
    Body,
    Empty,
}

/// Why a step was refused.
#[derive(Clone, Copy, Debug, PartialEq, Eq, Structural)]
pub enum StepError {
    /// The action code is not one of 0, 1, 2, 3.
    InvalidAction,
    /// The episode is over; only a reset starts a new one.
    EpisodeOver,
}

/// The mathematical state of a game.
pub struct GameView {
    pub size: u8,
    pub done: bool,
    pub score: u8,
    pub health: i8,
    pub start: u8,
    /// The cells of the snake, oldest first; the last one is the head.
    pub history: Seq<u8>,
    pub head: u128,
    pub body: u128,
    pub food: u128,
    pub first_column: u128,
    pub last_column: u128,
    pub first_row: u128,
    pub high_bits: u128,
}

/// Number of cells of a grid of side `n`.
pub open spec fn area(n: u8) -> int {
    n as int * n as int
}

/// Index of the cell in row `r` at offset `c` within the row.
pub open spec fn cell_at(n: u8, r: u8, c: int) -> int {
    r as int * n as int + c
}

/// Cell `i` is the one of some row at offset `c`.
pub open spec fn on_column(n: u8, c: int, i: u8) -> bool {
    exists|r: u8| r < n && i as int == #[trigger] cell_at(n, r, c)
}

/// Cell `i` lies in the top row.
pub open spec fn on_first_row(n: u8, i: u8) -> bool {
    area(n) - n <= i < area(n)
}

/// The four masks are those of the grid's side length, and the starting cell
/// is the middle one.
pub open spec fn masks_ok(v: GameView) -> bool {
    &&& 1 <= v.size <= MAX_SIZE
    &&& v.start as int == area(v.size) / 2
    &&& forall|i: u8|
        i < 128 ==> (#[trigger] holds(v.first_column, i) <==> on_column(v.size, v.size - 1, i))
    &&& forall|i: u8| i < 128 ==> (#[trigger] holds(v.last_column, i) <==> on_column(v.size, 0, i))
    &&& forall|i: u8| i < 128 ==> (#[trigger] holds(v.first_row, i) <==> on_first_row(v.size, i))
    &&& forall|i: u8| i < 128 ==> (#[trigger] holds(v.high_bits, i) <==> i >= area(v.size))
}

/// The snake lies on the grid: its cells are grid cells, no cell twice, the
/// head board holds the newest cell and the body board all the others.
pub open spec fn snake_ok(v: GameView) -> bool {
    &&& v.history.len() >= 1
    &&& forall|k: int| 0 <= k < v.history.len() ==> (#[trigger] v.history[k]) < area(v.size)
    &&& v.history.no_duplicates()
    &&& v.head == bit(v.history.last())
    &&& forall|i: u8| i < 128 ==> (#[trigger] holds(v.body, i) <==> in_body(v.history, i))
}

/// Cell `i` is one of the snake's cells behind the head.
pub open spec fn in_body(history: Seq<u8>, i: u8) -> bool {
    exists|k: int| 0 <= k < history.len() - 1 && #[trigger] history[k] == i
}

/// Cell `i` is one of the snake's cells.
pub open spec fn in_snake(history: Seq<u8>, i: u8) -> bool {
    exists|k: int| 0 <= k < history.len() && #[trigger] history[k] == i
}

/// The food board holds cell `f`, a grid cell that the snake does not cover.
pub open spec fn food_at(v: GameView, f: u8) -> bool {
    &&& f < area(v.size)
    &&& v.food == bit(f)
    &&& !in_snake(v.history, f)
}

/// There is no food, or one food cell on the grid off the snake.
pub open spec fn food_ok(v: GameView) -> bool {
    v.food == 0 || exists|f: u8| #[trigger] food_at(v, f)
}

/// The board of the cells that may take food.
pub open spec fn free_board(v: GameView) -> u128 {
    !(v.body | v.head | v.high_bits)
}

/// Cell `i` may take food.
pub open spec fn is_free(v: GameView, i: u8) -> bool {
    i < 128 && holds(free_board(v), i)
}

/// `food` is a legal outcome of placing food on `v`: one free cell, or
/// nothing when no cell is free.
pub open spec fn food_drawn(v: GameView, food: u128) -> bool {
    ||| food == 0 && forall|i: u8| !#[trigger] is_free(v, i)
    ||| exists|i: u8| #[trigger] is_free(v, i) && food == bit(i)
}

/// The state invariant. The masks always fit the size and health stays
/// between zero and its maximum; an episode is over once health is used up;
/// while the episode runs the snake and the food lie on the grid, apart from
/// each other, and the score counts the cells the snake has grown by.
pub open spec fn wf(v: GameView) -> bool {
    &&& masks_ok(v)
    &&& 0 <= v.health <= MAX_HEALTH
    &&& v.health == 0 ==> v.done
    &&& !v.done ==> {
        &&& snake_ok(v)
        &&& food_ok(v)
        &&& v.score + 1 == v.history.len()
    }
}

/// What position `index` shows: the head before the food, the food before
/// the body.
pub open spec fn shown(v: GameView, index: u8) -> Cell {
    if index >= 128 {
        Cell::Empty
    } else if holds(v.head, index) {
        Cell::Head
    } else if holds(v.food, index) {
        Cell::Food
    } else if holds(v.body, index) {
        Cell::Body
    } else {
        Cell::Empty
    }
}

/// The state at the start of an episode on the grid of `v`, food aside.
pub open spec fn restarted(v: GameView) -> GameView {
    GameView {
        done: false,
        score: 0,
        health: MAX_HEALTH,
        history: seq![v.start],
        head: bit(v.start),
        body: 0,
        ..v
    }
}

/// What placing the drawn cell `pick` makes of the food board: the drawn cell
/// if it is free, the old food if it is not, and no food where nothing was
/// drawn.
pub open spec fn food_for(v: GameView, pick: Option<u8>) -> u128 {
    match pick {
        Some(i) => if is_free(v, i) {
            bit(i)
        } else {
            v.food
        },
        None => 0,
    }
}

/// The head board after the move that `action` asks for: 0 shifts the head
/// one position up the cell indices (left on the grid), 1 one position down
/// (right), 2 a whole row up and 3 a whole row down.
pub open spec fn moved(head: u128, action: u8, n: u8) -> u128 {
    if action == 0 {
        head << 1u8
    } else if action == 1 {
        head >> 1u8
    } else if action == 2 {
        head << n
    } else {
        head >> n
    }
}

/// The cell that a head on cell `h` moves to, or `NO_CELL` when the move
/// takes it out of the 128 positions.
pub open spec fn moved_cell(h: u8, action: u8, n: u8) -> u8 {
    if action == 0 {
        if h + 1 < 128 {
            (h + 1) as u8
        } else {
            NO_CELL
        }
    } else if action == 1 {
        if h >= 1 {
            (h - 1) as u8
        } else {
            NO_CELL
        }
    } else if action == 2 {
        if h + n < 128 {
            (h + n) as u8
        } else {
            NO_CELL
        }
    } else {
        if h >= n {
            (h - n) as u8
        } else {
            NO_CELL
        }
    }
}

/// Whether the move `action` from `v` eats the food.
pub open spec fn eats(v: GameView, action: u8) -> bool {
    moved(v.head, action, v.size) & v.food != 0
}

/// Whether the step from `v` to `w` ends the episode: the head ran into the
/// body, left the grid over one of its four edges, or health is used up.
pub open spec fn terminal(v: GameView, action: u8, w: GameView) -> bool {
    let head = moved(v.head, action, v.size);
    ||| head & w.body != 0
    ||| (v.head & v.first_column != 0 && action == 0)
    ||| (v.head & v.last_column != 0 && action == 1)
    ||| (v.head & v.first_row != 0 && action == 2)
    ||| head == 0
    ||| w.health <= 0
}

/// `w` is a state that one step with `action` makes of the running game `v`.
/// Everything but the new food after eating is determined.
pub open spec fn stepped(v: GameView, action: u8, w: GameView) -> bool {
    let grown = v.history.push(moved_cell(v.history.last(), action, v.size));
    &&& w.size == v.size
    &&& w.start == v.start
    &&& w.first_column == v.first_column
    &&& w.last_column == v.last_column
    &&& w.first_row == v.first_row
    &&& w.high_bits == v.high_bits
    &&& w.head == moved(v.head, action, v.size)
    &&& w.done == terminal(v, action, w)
    &&& if eats(v, action) {
        &&& w.history == grown
        &&& w.body == (v.body | v.head)
        &&& w.score as int == v.score + 1
        &&& w.health == MAX_HEALTH
        &&& food_drawn(w, w.food)
    } else {
        &&& w.history == grown.drop_first()
        &&& w.body == (v.body | v.head) ^ bit(v.history[0])
        &&& w.score == v.score
        &&& w.health as int == v.health - 1
        &&& w.food == v.food
    }
}

/// The body board holds the snake's cells behind the head, none of them
/// twice.
pub open spec fn body_ok(v: GameView) -> bool {
    &&& v.history.len() >= 1
    &&& v.history.drop_last().no_duplicates()
    &&& forall|k: int| 0 <= k < v.history.len() - 1 ==> (#[trigger] v.history[k]) < 128
    &&& forall|i: u8| i < 128 ==> (#[trigger] holds(v.body, i) <==> in_body(v.history, i))
}

} // verus!
