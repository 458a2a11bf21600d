//! Laws of the game that relate several of its operations.
use crate::bits::{bit, cells, holds, lemma_bit_single, lemma_meets};
use crate::lemmas::{
    lemma_free_is_off_snake, lemma_snake_fits, lemma_step_body, lemma_step_keeps_wf,
};
use crate::model::{
    area, body_ok, eats, food_at, food_drawn, in_body, in_snake, is_free, masks_ok, restarted,
    snake_ok, stepped, wf, GameView, MAX_HEALTH,
};
use vstd::prelude::*;

verus! {

/// While the episode runs, the head board holds exactly one cell, and that
/// cell is a cell of the grid.
pub proof fn lemma_single_head(v: GameView)
    requires
        wf(v),
        !v.done,
    ensures
        v.history.last() < area(v.size),
        v.head == bit(v.history.last()),
        v.head != 0,
        forall|i: u8| i < 128 ==> (holds(v.head, i) <==> i == v.history.last()),
        cells(v.head) == set![v.history.last() as nat],
{
    let h = v.history.last();
    lemma_snake_fits(v);
    assert(v.history[v.history.len() - 1] < area(v.size));
    assert forall|i: u8| i < 128 implies (holds(v.head, i) <==> i == h) by {
        lemma_bit_single(h, i);
    }
    lemma_bit_single(h, h);
    assert(cells(v.head) =~= set![h as nat]) by {
        assert forall|i: nat| cells(v.head).contains(i) <==> i == h as nat by {
            if i < 128 {
                assert(holds(v.head, i as u8) <==> i as u8 == h);
            }
        }
    }
}

/// The cells of the snake behind its head, oldest first.
pub open spec fn trail(history: Seq<u8>) -> Seq<nat> {
    history.drop_last().map_values(|c: u8| c as nat)
}

/// A body board that holds the snake's cells behind the head, none twice,
/// has as many cells as the snake is long, less the head.
pub proof fn lemma_body_cells(v: GameView)
    requires
        body_ok(v),
    ensures
        cells(v.body) == trail(v.history).to_set(),
        cells(v.body).finite(),
        cells(v.body).len() == v.history.len() - 1,
{
    let t = trail(v.history);
    let d = v.history.drop_last();
    assert(t.len() == v.history.len() - 1);
    assert(t.no_duplicates()) by {
        assert forall|a: int, b: int| 0 <= a < t.len() && 0 <= b < t.len() && a != b implies t[a]
            != t[b] by {
            assert(d[a] != d[b]);
        }
    }
    t.unique_seq_to_set();
    vstd::seq_lib::seq_to_set_is_finite(t);
    assert(cells(v.body) =~= t.to_set()) by {
        assert forall|i: nat| cells(v.body).contains(i) <==> t.to_set().contains(i) by {
            if cells(v.body).contains(i) {
                let c = i as u8;
                assert(holds(v.body, c));
                assert(in_body(v.history, c));
                let k = choose|k: int| 0 <= k < v.history.len() - 1 && v.history[k] == c;
                assert(t[k] == i);
                assert(t.contains(i));
            }
            if t.to_set().contains(i) {
                assert(t.contains(i));
                let k = choose|k: int| 0 <= k < t.len() && t[k] == i;
                assert(v.history[k] as nat == i);
                assert(v.history[k] < 128);
                assert(in_body(v.history, v.history[k]));
                assert(holds(v.body, v.history[k]));
            }
        }
    }
}

/// While the episode runs, no two of the head, body and food boards share
/// a cell.
pub proof fn lemma_boards_disjoint(v: GameView)
    requires
        wf(v),
        !v.done,
    ensures
        v.head & v.body == 0,
        v.head & v.food == 0,
        v.body & v.food == 0,
{
    let h = v.history.last();
    let len = v.history.len() as int;
    lemma_snake_fits(v);
    assert(v.history[len - 1] < area(v.size));
    if in_body(v.history, h) {
        let k = choose|k: int| 0 <= k < len - 1 && v.history[k] == h;
        assert(v.history[k] != v.history[len - 1]);
    }
    assert(!holds(v.body, h));
    lemma_meets(v.body, h);
    if v.food == 0 {
        lemma_meets(v.head, h);
        lemma_meets(v.body, h);
    } else {
        let f = choose|f: u8| #[trigger] food_at(v, f);
        if f == h {
            assert(v.history[len - 1] == f);
        }
        lemma_bit_single(f, h);
        lemma_meets(v.food, h);
        if in_body(v.history, f) {
            let k = choose|k: int| 0 <= k < len - 1 && v.history[k] == f;
            assert(v.history[k] == f);
        }
        assert(!holds(v.body, f));
    }
}

/// Health never exceeds its maximum and never falls below zero, and a game
/// whose health is used up is over. A step ends the episode whenever it
/// brings health to zero.
pub proof fn lemma_health_bound(v: GameView, action: u8, w: GameView)
    requires
        wf(v),
        !v.done,
        action <= 3,
        stepped(v, action, w),
    ensures
        0 < v.health <= MAX_HEALTH,
        0 <= w.health <= MAX_HEALTH,
        w.health == 0 ==> w.done,
        !eats(v, action) ==> w.health == v.health - 1,
        eats(v, action) ==> w.health == MAX_HEALTH,
{
    lemma_step_keeps_wf(v, action, w);
}

/// A reset forgets the episode: what it leaves depends on the grid and on
/// the food drawn, not on the state before. So a second reset changes
/// nothing but, possibly, the food, and the same cells may be drawn again.
pub proof fn lemma_reset_idempotent(v: GameView, first_food: u128, second_food: u128)
    ensures
        ({
            let once = GameView { food: first_food, ..restarted(v) };
            let twice = GameView { food: second_food, ..restarted(once) };
            &&& twice == (GameView { food: second_food, ..once })
            &&& first_food == second_food ==> twice == once
            &&& food_drawn(once, first_food) <==> food_drawn(twice, first_food)
        }),
{
    let once = GameView { food: first_food, ..restarted(v) };
    let twice = GameView { food: second_food, ..restarted(once) };
    assert(twice =~= GameView { food: second_food, ..once });
    assert forall|i: u8| is_free(once, i) == is_free(twice, i) by {}
}

/// A step that eats adds one cell to the body board and one to the score;
/// any other step keeps the number of body cells and the score. This holds
/// of the step that ends the episode too.
pub proof fn lemma_growth(v: GameView, action: u8, w: GameView)
    requires
        wf(v),
        !v.done,
        action <= 3,
        stepped(v, action, w),
    ensures
        cells(v.body).finite(),
        cells(w.body).finite(),
        cells(v.body).len() == v.history.len() - 1,
        cells(w.body).len() == w.history.len() - 1,
        eats(v, action) ==> cells(w.body).len() == cells(v.body).len() + 1 && w.score == v.score
            + 1,
        !eats(v, action) ==> cells(w.body).len() == cells(v.body).len() && w.score == v.score,
{
    lemma_step_body(v, action, w);
    assert(body_ok(v)) by {
        let d = v.history.drop_last();
        lemma_snake_fits(v);
        assert forall|k: int| 0 <= k < v.history.len() - 1 implies (#[trigger] v.history[k])
            < 128 by {
            assert(v.history[k] < area(v.size));
        }
        assert forall|a: int, b: int| 0 <= a < d.len() && 0 <= b < d.len() && a != b implies d[a]
            != d[b] by {
            assert(v.history[a] != v.history[b]);
        }
    }
    lemma_body_cells(v);
    lemma_body_cells(w);
}

/// Food that was drawn for a snake on the grid is a single grid cell that is
/// on none of the head board, the body board and the mask of the unused
/// high positions.
pub proof fn lemma_food_valid(v: GameView, food: u128)
    requires
        masks_ok(v),
        snake_ok(v),
        food_drawn(v, food),
        food != 0,
    ensures
        exists|f: u8| f < area(v.size) && food == bit(f),
        food & v.head == 0,
        food & v.body == 0,
        food & v.high_bits == 0,
{
    let f = choose|f: u8| #[trigger] is_free(v, f) && food == bit(f);
    let h = v.history.last();
    let len = v.history.len() as int;
    lemma_free_is_off_snake(v, f);
    lemma_snake_fits(v);
    assert(v.history[len - 1] < area(v.size));
    assert(f < area(v.size) && food == bit(f));
    lemma_meets(v.head, f);
    lemma_meets(v.body, f);
    lemma_meets(v.high_bits, f);
    lemma_bit_single(h, f);
    if f == h {
        assert(v.history[len - 1] == f);
    }
    if in_body(v.history, f) {
        let k = choose|k: int| 0 <= k < len - 1 && v.history[k] == f;
        assert(v.history[k] == f);
    }
    assert(!in_snake(v.history, f));
    assert(!holds(v.body, f));
    assert(!holds(v.head, f));
    assert(!holds(v.high_bits, f));
}

/// Unless the snake fills the whole grid, a cell is free, so that placing
/// food leaves food on the board.
pub proof fn lemma_food_present(v: GameView, food: u128)
    requires
        masks_ok(v),
        snake_ok(v),
        food_drawn(v, food),
        v.history.len() < area(v.size),
    ensures
        food != 0,
        exists|i: u8| is_free(v, i),
{
    lemma_snake_fits(v);
    let cells_of_snake = v.history.map_values(|c: u8| c as int);
    let grid = vstd::set_lib::set_int_range(0, area(v.size));
    if forall|i: u8| !#[trigger] is_free(v, i) {
        assert(cells_of_snake.no_duplicates()) by {
            assert forall|a: int, b: int|
                0 <= a < cells_of_snake.len() && 0 <= b < cells_of_snake.len() && a
                    != b implies cells_of_snake[a] != cells_of_snake[b] by {
                assert(v.history[a] != v.history[b]);
            }
        }
        cells_of_snake.unique_seq_to_set();
        vstd::seq_lib::seq_to_set_is_finite(cells_of_snake);
        vstd::set_lib::lemma_int_range(0, area(v.size));
        assert(grid.subset_of(cells_of_snake.to_set())) by {
            assert forall|x: int| grid.contains(x) implies cells_of_snake.to_set().contains(x) by {
                let i = x as u8;
                assert(!is_free(v, i));
                lemma_free_is_off_snake(v, i);
                let k = choose|k: int| 0 <= k < v.history.len() && v.history[k] == i;
                assert(cells_of_snake[k] == x);
                assert(cells_of_snake.contains(x));
            }
        }
        vstd::set_lib::lemma_len_subset(grid, cells_of_snake.to_set());
        assert(false);
    }
    let i = choose|i: u8| #[trigger] is_free(v, i) && food == bit(i);
    lemma_bit_single(i, i);
}

} // verus!
