//! Proofs about the model: what the invariant gives, and that steps keep it.
use crate::bits::{
    bit, holds, lemma_bit_single, lemma_complement, lemma_empty, lemma_meets, lemma_or,
    lemma_shift, lemma_toggle,
};
use crate::model::{
    area, body_ok, cell_at, eats, food_at, food_drawn, food_ok, free_board, in_body, in_snake,
    is_free, masks_ok, moved, moved_cell, on_column, restarted, snake_ok, stepped, wf, GameView,
    MAX_SIZE,
};
use vstd::prelude::*;

verus! {

/// On a well-placed snake the free cells are the grid cells off the snake.
pub proof fn lemma_free_is_off_snake(v: GameView, i: u8)
    requires
        masks_ok(v),
        snake_ok(v),
    ensures
        is_free(v, i) <==> i < area(v.size) && !in_snake(v.history, i),
{
    assert(area(v.size) <= 121) by (nonlinear_arith)
        requires
            1 <= v.size <= 11,
    ;
    if i < 128 {
        let h = v.history.last();
        lemma_complement(v.body, v.head, v.high_bits, i);
        lemma_bit_single(h, i);
        if in_snake(v.history, i) {
            let k = choose|k: int| 0 <= k < v.history.len() && v.history[k] == i;
            if k < v.history.len() - 1 {
                assert(in_body(v.history, i));
            }
        }
        if in_body(v.history, i) {
            let k = choose|k: int| 0 <= k < v.history.len() - 1 && v.history[k] == i;
            assert(v.history[k] == i);
        }
    } else {
        if in_snake(v.history, i) {
            let k = choose|k: int| 0 <= k < v.history.len() && v.history[k] == i;
            assert(v.history[k] < area(v.size));
        }
    }
}

/// Food drawn for a well-placed snake lies on the grid and off the snake.
pub proof fn lemma_drawn_food_ok(v: GameView, food: u128)
    requires
        masks_ok(v),
        snake_ok(v),
        food_drawn(v, food),
    ensures
        food_ok(GameView { food, ..v }),
{
    if food != 0 {
        let i = choose|i: u8| #[trigger] is_free(v, i) && food == bit(i);
        lemma_free_is_off_snake(v, i);
        assert(food_at(GameView { food, ..v }, i));
    }
}

/// Which food may be drawn depends on the snake and the grid alone.
pub proof fn lemma_food_drawn_frame(v: GameView, w: GameView, food: u128)
    requires
        food_drawn(v, food),
        w.head == v.head,
        w.body == v.body,
        w.high_bits == v.high_bits,
    ensures
        food_drawn(w, food),
{
    assert(free_board(w) == free_board(v));
    assert forall|i: u8| is_free(w, i) == is_free(v, i) by {}
    if food == 0 && (forall|i: u8| !#[trigger] is_free(v, i)) {
        assert forall|i: u8| !#[trigger] is_free(w, i) by {
            assert(!is_free(v, i));
        }
    } else {
        let i = choose|i: u8| #[trigger] is_free(v, i) && food == bit(i);
        assert(is_free(w, i));
    }
}

/// Moving a one-cell head board moves its cell by one position or by one
/// row.
pub proof fn lemma_moved_head(h: u8, action: u8, n: u8)
    requires
        h < 128,
        n <= MAX_SIZE,
    ensures
        moved(bit(h), action, n) == (if moved_cell(h, action, n) < 128 {
            bit(moved_cell(h, action, n))
        } else {
            0
        }),
{
    lemma_shift(h, 1);
    lemma_shift(h, n);
}

/// The head and body boards together hold the cells of the snake.
pub proof fn lemma_union_is_snake(v: GameView, i: u8)
    requires
        masks_ok(v),
        snake_ok(v),
        i < 128,
    ensures
        holds(v.body | v.head, i) <==> in_snake(v.history, i),
{
    let h = v.history.last();
    lemma_snake_fits(v);
    assert(v.history[v.history.len() - 1] < area(v.size));
    lemma_or(v.body, v.head, i);
    lemma_bit_single(h, i);
    if in_snake(v.history, i) {
        let k = choose|k: int| 0 <= k < v.history.len() && v.history[k] == i;
        if k < v.history.len() - 1 {
            assert(in_body(v.history, i));
        }
    }
    if in_body(v.history, i) {
        let k = choose|k: int| 0 <= k < v.history.len() - 1 && v.history[k] == i;
        assert(v.history[k] == i);
    }
    if i == h {
        assert(v.history[v.history.len() - 1] == i);
    }
}

/// A move that neither leaves over the left or the top edge nor empties the
/// head board lands on a grid cell.
pub proof fn lemma_landing(v: GameView, action: u8)
    requires
        masks_ok(v),
        snake_ok(v),
        action <= 3,
        !(action == 0 && v.head & v.first_column != 0),
        !(action == 2 && v.head & v.first_row != 0),
        moved(v.head, action, v.size) != 0,
    ensures
        moved_cell(v.history.last(), action, v.size) < area(v.size),
        moved(v.head, action, v.size) == bit(moved_cell(v.history.last(), action, v.size)),
{
    let n = v.size;
    let h = v.history.last();
    lemma_snake_fits(v);
    assert(v.history[v.history.len() - 1] < area(n));
    lemma_moved_head(h, action, n);
    lemma_meets(v.first_column, h);
    lemma_meets(v.first_row, h);
    if action == 0 {
        if h == area(n) - 1 {
            let r = (n - 1) as u8;
            assert(cell_at(n, r, n - 1) == area(n) - 1) by (nonlinear_arith)
                requires
                    r == n - 1,
                    n >= 1,
            ;
            assert(on_column(n, n - 1, h));
        }
    }
}

/// After every step of a running game, also one that ends the episode, the
/// body board holds the snake's cells behind the head.
pub proof fn lemma_step_body(v: GameView, action: u8, w: GameView)
    requires
        wf(v),
        !v.done,
        action <= 3,
        stepped(v, action, w),
    ensures
        body_ok(w),
{
    let len = v.history.len() as int;
    let k = moved_cell(v.history.last(), action, v.size);
    lemma_snake_fits(v);
    assert forall|i: u8| i < 128 implies (holds(v.body | v.head, i) <==> in_snake(
        v.history,
        i,
    )) by {
        lemma_union_is_snake(v, i);
    }
    if eats(v, action) {
        assert(w.history.len() == len + 1);
        assert(w.history.drop_last() =~= v.history);
        assert forall|j: int| 0 <= j < len implies w.history[j] == v.history[j] by {}
        assert forall|j: int| 0 <= j < w.history.len() - 1 implies (#[trigger] w.history[j])
            < 128 by {
            assert(v.history[j] < area(v.size));
        }
        assert forall|i: u8| i < 128 implies (#[trigger] holds(w.body, i) <==> in_body(
            w.history,
            i,
        )) by {
            if in_snake(v.history, i) {
                let j = choose|j: int| 0 <= j < len && v.history[j] == i;
                assert(w.history[j] == i);
            }
            if in_body(w.history, i) {
                let j = choose|j: int| 0 <= j < w.history.len() - 1 && w.history[j] == i;
                assert(v.history[j] == i);
            }
        }
    } else {
        let t = v.history[0];
        assert(t < area(v.size));
        assert(w.history.len() == len);
        assert(w.history.drop_last() =~= v.history.drop_first());
        assert forall|j: int| 0 <= j < len - 1 implies w.history[j] == v.history[j + 1] by {}
        assert forall|j: int| 0 <= j < w.history.len() - 1 implies (#[trigger] w.history[j])
            < 128 by {
            assert(v.history[j + 1] < area(v.size));
        }
        assert(w.history.drop_last().no_duplicates()) by {
            let d = v.history.drop_first();
            assert forall|a: int, b: int| 0 <= a < d.len() && 0 <= b < d.len() && a != b implies d[a]
                != d[b] by {
                assert(v.history[a + 1] != v.history[b + 1]);
            }
        }
        assert(in_snake(v.history, t));
        assert forall|i: u8| i < 128 implies (#[trigger] holds(w.body, i) <==> in_body(
            w.history,
            i,
        )) by {
            lemma_toggle(v.body | v.head, t, i);
            if in_snake(v.history, i) && i != t {
                let j = choose|j: int| 0 <= j < len && v.history[j] == i;
                assert(w.history[j - 1] == i);
            }
            if in_body(w.history, i) {
                let j = choose|j: int| 0 <= j < w.history.len() - 1 && w.history[j] == i;
                assert(v.history[j + 1] == i);
                assert(v.history[j + 1] != v.history[0]);
            }
        }
    }
}

/// One step of a running, well-formed game leaves a well-formed game.
pub proof fn lemma_step_keeps_wf(v: GameView, action: u8, w: GameView)
    requires
        wf(v),
        !v.done,
        action <= 3,
        stepped(v, action, w),
    ensures
        wf(w),
{
    if !w.done {
        let k = moved_cell(v.history.last(), action, v.size);
        let len = v.history.len() as int;
        lemma_snake_fits(v);
        lemma_landing(v, action);
        lemma_step_body(v, action, w);
        lemma_meets(w.body, k);
        assert(!in_body(w.history, k));
        if eats(v, action) {
            assert forall|j: int| 0 <= j < len implies w.history[j] == v.history[j] by {}
            assert(w.history.no_duplicates()) by {
                assert forall|a: int, b: int|
                    0 <= a < len + 1 && 0 <= b < len + 1 && a != b implies w.history[a]
                    != w.history[b] by {
                    if a < len && b < len {
                        assert(v.history[a] != v.history[b]);
                    } else if a < len {
                        assert(in_body(w.history, w.history[a]));
                    } else {
                        assert(in_body(w.history, w.history[b]));
                    }
                }
            }
            lemma_drawn_food_ok(w, w.food);
            assert(w =~= GameView { food: w.food, ..w });
        } else {
            assert forall|j: int| 0 <= j < len - 1 implies w.history[j] == v.history[j + 1] by {}
            assert(w.history.no_duplicates()) by {
                assert forall|a: int, b: int| 0 <= a < len && 0 <= b < len && a != b implies w.history[a]
                    != w.history[b] by {
                    if a < len - 1 && b < len - 1 {
                        assert(v.history[a + 1] != v.history[b + 1]);
                    } else if a < len - 1 {
                        assert(in_body(w.history, w.history[a]));
                    } else {
                        assert(in_body(w.history, w.history[b]));
                    }
                }
            }
            if v.food != 0 {
                let f = choose|f: u8| #[trigger] food_at(v, f);
                lemma_meets(v.food, k);
                lemma_bit_single(f, k);
                if in_snake(w.history, f) {
                    let j = choose|j: int| 0 <= j < len && w.history[j] == f;
                    if j < len - 1 {
                        assert(v.history[j + 1] == f);
                    }
                }
                assert(food_at(w, f));
            }
        }
    }
}

/// A snake with no cell twice has at most as many cells as the grid.
pub proof fn lemma_snake_fits(v: GameView)
    requires
        masks_ok(v),
        snake_ok(v),
    ensures
        v.history.len() <= area(v.size) <= 121,
{
    assert(area(v.size) <= 121) by (nonlinear_arith)
        requires
            1 <= v.size <= 11,
    ;
    let t = v.history.map_values(|x: u8| x as int);
    assert(t.no_duplicates()) by {
        assert forall|i: int, j: int| 0 <= i < t.len() && 0 <= j < t.len() && i != j implies t[i]
            != t[j] by {
            assert(v.history[i] != v.history[j]);
        }
    }
    t.unique_seq_to_set();
    vstd::set_lib::lemma_int_range(0, area(v.size));
    assert(t.to_set().subset_of(vstd::set_lib::set_int_range(0, area(v.size)))) by {
        assert forall|a: int| t.to_set().contains(a) implies vstd::set_lib::set_int_range(
            0,
            area(v.size),
        ).contains(a) by {
            let k = choose|k: int| 0 <= k < t.len() && t[k] == a;
            assert(v.history[k] < area(v.size));
        }
    }
    vstd::set_lib::lemma_len_subset(t.to_set(), vstd::set_lib::set_int_range(0, area(v.size)));
}

/// The state at the start of an episode, before food is placed, is well
/// formed.
pub proof fn lemma_restart_ok(v: GameView)
    requires
        masks_ok(v),
        v == (GameView { food: 0, ..restarted(v) }),
    ensures
        wf(v),
        snake_ok(v),
{
    assert(0 <= area(v.size) / 2 < area(v.size) <= 121) by (nonlinear_arith)
        requires
            1 <= v.size <= 11,
    ;
    assert(v.history.len() == 1);
    assert(v.history[0] == v.start);
    assert forall|i: u8| i < 128 implies (#[trigger] holds(v.body, i) <==> in_body(
        v.history,
        i,
    )) by {
        lemma_empty(i);
    }
}

} // verus!
