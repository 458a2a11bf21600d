use rand::Rng;
use snake_engine::bits::test_bit;
use snake_engine::game::Game;
use snake_engine::model::{Cell, StepError};

fn bit(i: u8) -> u128 {
    1u128 << i
}

/// A 4 x 4 game with the food moved to `cell`, out of the snake's way.
fn game_with_food_at(cell: u8) -> Game {
    let mut game = Game::new(4);
    assert!(game.place_food(Some(cell)));
    assert_eq!(game.food_board(), bit(cell));
    game
}

/// Feeds the snake: puts food on the cell that `action` leads to and steps.
fn eat(game: &mut Game, target: u8, action: u8) {
    assert!(game.place_food(Some(target)));
    let score = game.score();
    assert_eq!(game.step(action), Ok(()));
    assert_eq!(game.score(), score + 1);
    assert_eq!(game.head_board(), bit(target));
}

fn assert_alive_invariants(game: &Game) {
    let n = game.size() as u32;
    let head = game.head_board();
    let body = game.body_board();
    let food = game.food_board();
    assert_eq!(head.count_ones(), 1);
    assert!(head.trailing_zeros() < n * n);
    assert_eq!(head & body, 0);
    assert_eq!(head & food, 0);
    assert_eq!(body & food, 0);
    assert!(food.count_ones() <= 1);
    if food != 0 {
        assert!(food.trailing_zeros() < n * n);
    }
    assert_eq!(body.count_ones() as usize + 1, game.snake_len());
    assert_eq!(game.score() as usize + 1, game.snake_len());
    assert!(game.health() >= 1 && game.health() <= 100);
}

#[test]
fn new_game_starts_on_the_middle_cell() {
    let game = Game::new(4);
    assert_eq!(game.size(), 4);
    assert_eq!(game.head_board(), bit(8));
    assert_eq!(game.body_board(), 0);
    assert_eq!(game.score(), 0);
    assert_eq!(game.health(), 100);
    assert!(!game.done());
    assert_eq!(game.snake_len(), 1);
    let food = game.food_board();
    assert_eq!(food.count_ones(), 1);
    assert!(food.trailing_zeros() < 16);
    assert_ne!(food, bit(8));
}

#[test]
fn new_game_of_every_size_is_sound() {
    for size in 1u8..=11 {
        let game = Game::new(size);
        let cells = size as u32 * size as u32;
        assert_eq!(game.head_board(), 1u128 << (cells / 2));
        if size == 1 {
            assert_eq!(game.food_board(), 0);
        } else {
            assert_alive_invariants(&game);
            assert_eq!(game.food_board().count_ones(), 1);
        }
    }
}

#[test]
fn food_is_drawn_from_all_free_cells() {
    let mut seen: u128 = 0;
    for _ in 0..400 {
        let game = Game::new(4);
        seen |= game.food_board();
    }
    assert_eq!(seen, 0xffff & !bit(8));
}

#[test]
fn free_cells_are_listed_in_ascending_order() {
    let game = Game::new(4);
    let expected: Vec<u8> = (0u8..16).filter(|c| *c != 8).collect();
    assert_eq!(game.free_cells(), expected);
    let game = Game::new(1);
    assert_eq!(game.free_cells(), Vec::<u8>::new());
    let game = Game::new(11);
    assert_eq!(game.free_cells().len(), 120);
    assert_eq!(game.free_cells().last(), Some(&120u8));
}

#[test]
fn place_food_takes_only_free_cells() {
    let mut game = Game::new(4);
    assert!(game.place_food(Some(3)));
    assert_eq!(game.food_board(), bit(3));
    assert!(!game.place_food(Some(8)));
    assert_eq!(game.food_board(), bit(3));
    assert!(!game.place_food(Some(16)));
    assert_eq!(game.food_board(), bit(3));
    assert!(!game.place_food(Some(200)));
    assert_eq!(game.food_board(), bit(3));
    assert!(!game.place_food(None));
    assert_eq!(game.food_board(), 0);
    assert_eq!(game.head_board(), bit(8));
    assert!(!game.done());
}

#[test]
fn get_food_places_one_free_cell() {
    let mut game = Game::new(4);
    for _ in 0..50 {
        game.get_food();
        assert_alive_invariants(&game);
        assert_eq!(game.food_board().count_ones(), 1);
        assert_eq!(game.head_board(), bit(8));
    }
}

#[test]
fn step_without_food_moves_and_costs_health() {
    let mut game = game_with_food_at(0);
    assert_eq!(game.step(0), Ok(()));
    assert_eq!(game.head_board(), bit(9));
    assert_eq!(game.body_board(), 0);
    assert_eq!(game.food_board(), bit(0));
    assert_eq!(game.health(), 99);
    assert_eq!(game.score(), 0);
    assert_eq!(game.snake_len(), 1);
    assert!(!game.done());
    assert_eq!(game.step(2), Ok(()));
    assert_eq!(game.head_board(), bit(13));
    assert_eq!(game.step(1), Ok(()));
    assert_eq!(game.head_board(), bit(12));
    assert_eq!(game.step(3), Ok(()));
    assert_eq!(game.head_board(), bit(8));
    assert_eq!(game.health(), 96);
    assert!(!game.done());
}

#[test]
fn step_onto_food_grows_the_snake() {
    let mut game = game_with_food_at(9);
    assert_eq!(game.step(0), Ok(()));
    assert_eq!(game.head_board(), bit(9));
    assert_eq!(game.body_board(), bit(8));
    assert_eq!(game.score(), 1);
    assert_eq!(game.health(), 100);
    assert_eq!(game.snake_len(), 2);
    assert!(!game.done());
    assert_alive_invariants(&game);
    assert_eq!(game.food_board().count_ones(), 1);
    assert_eq!(game.food_board() & (bit(8) | bit(9)), 0);
}

#[test]
fn growth_follows_eating() {
    let mut game = Game::new(4);
    eat(&mut game, 9, 0);
    assert_eq!(game.snake_len(), 2);
    assert!(game.place_food(Some(0)));
    assert_eq!(game.step(0), Ok(()));
    assert_eq!(game.snake_len(), 2);
    assert_eq!(game.body_board(), bit(9));
    assert_eq!(game.head_board(), bit(10));
    assert_eq!(game.health(), 99);
    eat(&mut game, 14, 2);
    assert_eq!(game.snake_len(), 3);
    assert_eq!(game.body_board(), bit(9) | bit(10));
    assert_eq!(game.health(), 100);
    assert_eq!(game.score(), 2);
}

#[test]
fn leaving_over_the_left_edge_ends_the_episode() {
    let mut game = game_with_food_at(0);
    for expected in [9u8, 10, 11] {
        assert_eq!(game.step(0), Ok(()));
        assert_eq!(game.head_board(), bit(expected));
        assert!(!game.done());
    }
    assert_eq!(game.step(0), Ok(()));
    assert!(game.done());
    assert_eq!(game.score(), 0);
    assert_eq!(game.health(), 96);
}

#[test]
fn leaving_over_the_right_edge_ends_the_episode() {
    let mut game = game_with_food_at(0);
    assert_eq!(game.step(1), Ok(()));
    assert!(game.done());
    assert_eq!(game.head_board(), bit(7));
    assert_eq!(game.score(), 0);
    assert_eq!(game.health(), 99);
}

#[test]
fn leaving_over_the_top_edge_ends_the_episode() {
    let mut game = game_with_food_at(0);
    assert_eq!(game.step(2), Ok(()));
    assert_eq!(game.head_board(), bit(12));
    assert!(!game.done());
    assert_eq!(game.step(2), Ok(()));
    assert!(game.done());
    assert_eq!(game.head_board(), bit(16));
    assert_eq!(game.score(), 0);
    assert_eq!(game.health(), 98);
}

#[test]
fn leaving_over_the_bottom_edge_ends_the_episode() {
    let mut game = game_with_food_at(15);
    assert_eq!(game.step(3), Ok(()));
    assert_eq!(game.head_board(), bit(4));
    assert_eq!(game.step(3), Ok(()));
    assert_eq!(game.head_board(), bit(0));
    assert!(!game.done());
    assert_eq!(game.step(3), Ok(()));
    assert!(game.done());
    assert_eq!(game.head_board(), 0);
    assert_eq!(game.score(), 0);
    assert_eq!(game.health(), 97);
}

#[test]
fn moving_up_ends_within_the_grid_height() {
    let mut game = game_with_food_at(0);
    let mut steps = 0;
    while !game.done() {
        assert_eq!(game.step(2), Ok(()));
        steps += 1;
        assert!(steps <= 4);
    }
    assert_eq!(steps, 2);
    assert_eq!(game.score(), 0);
}

#[test]
fn top_edge_of_the_largest_grid_is_a_wall() {
    let mut game = Game::new(11);
    assert!(game.place_food(Some(0)));
    assert_eq!(game.head_board(), bit(60));
    for expected in [71u8, 82, 93, 104, 115, 116, 117] {
        let action = if expected <= 115 { 2 } else { 0 };
        assert_eq!(game.step(action), Ok(()));
        assert_eq!(game.head_board(), bit(expected));
        assert!(!game.done());
    }
    assert_eq!(game.step(2), Ok(()));
    assert!(game.done());
    assert_eq!(game.head_board(), 0);
    assert_eq!(game.score(), 0);
}

#[test]
fn wrapping_onto_food_still_ends_the_episode() {
    let mut game = game_with_food_at(0);
    for _ in 0..3 {
        assert_eq!(game.step(0), Ok(()));
    }
    assert!(game.place_food(Some(12)));
    assert_eq!(game.step(0), Ok(()));
    assert!(game.done());
    assert_eq!(game.head_board(), bit(12));
    assert_eq!(game.score(), 1);
    assert_eq!(game.health(), 100);
}

#[test]
fn running_into_the_body_ends_the_episode() {
    let mut game = Game::new(4);
    eat(&mut game, 9, 0);
    eat(&mut game, 10, 0);
    eat(&mut game, 14, 2);
    eat(&mut game, 13, 1);
    assert_eq!(game.body_board(), bit(8) | bit(9) | bit(10) | bit(14));
    assert_eq!(game.snake_len(), 5);
    assert!(!game.done());
    assert!(game.place_food(Some(0)));
    assert_eq!(game.step(3), Ok(()));
    assert!(game.done());
    assert_eq!(game.head_board(), bit(9));
    assert_eq!(game.body_board(), bit(9) | bit(10) | bit(14) | bit(13));
    assert_eq!(game.score(), 4);
    assert_eq!(game.health(), 99);
}

#[test]
fn following_the_own_tail_is_no_collision() {
    let mut game = Game::new(4);
    eat(&mut game, 9, 0);
    eat(&mut game, 13, 2);
    eat(&mut game, 12, 1);
    assert_eq!(game.body_board(), bit(8) | bit(9) | bit(13));
    assert!(game.place_food(Some(0)));
    assert_eq!(game.step(3), Ok(()));
    assert!(!game.done());
    assert_eq!(game.head_board(), bit(8));
    assert_eq!(game.body_board(), bit(9) | bit(13) | bit(12));
    assert_alive_invariants(&game);
}

#[test]
fn starving_ends_the_episode() {
    let mut game = game_with_food_at(0);
    let round = [0u8, 2, 1, 3];
    for tick in 0..99 {
        assert_eq!(game.step(round[tick % 4]), Ok(()));
        assert!(!game.done());
    }
    assert_eq!(game.health(), 1);
    assert_eq!(game.step(round[3]), Ok(()));
    assert_eq!(game.health(), 0);
    assert!(game.done());
    assert_eq!(game.head_board(), bit(8));
    assert_eq!(game.score(), 0);
}

#[test]
fn unknown_action_is_refused() {
    let mut game = game_with_food_at(0);
    for action in [4u8, 5, 100, 255] {
        assert_eq!(game.step(action), Err(StepError::InvalidAction));
    }
    assert_eq!(game.head_board(), bit(8));
    assert_eq!(game.body_board(), 0);
    assert_eq!(game.food_board(), bit(0));
    assert_eq!(game.health(), 100);
    assert_eq!(game.snake_len(), 1);
    assert!(!game.done());
}

#[test]
fn step_after_the_end_is_refused() {
    let mut game = game_with_food_at(0);
    assert_eq!(game.step(1), Ok(()));
    assert!(game.done());
    let (head, body, health) = (game.head_board(), game.body_board(), game.health());
    assert_eq!(game.step(0), Err(StepError::EpisodeOver));
    assert_eq!(game.step(9), Err(StepError::InvalidAction));
    assert_eq!(game.head_board(), head);
    assert_eq!(game.body_board(), body);
    assert_eq!(game.health(), health);
    assert!(game.done());
}

#[test]
fn reset_starts_a_new_episode() {
    let mut game = Game::new(4);
    eat(&mut game, 9, 0);
    eat(&mut game, 10, 0);
    assert!(game.place_food(Some(0)));
    for _ in 0..2 {
        assert_eq!(game.step(0), Ok(()));
    }
    assert!(game.done());
    game.reset();
    assert!(!game.done());
    assert_eq!(game.size(), 4);
    assert_eq!(game.head_board(), bit(8));
    assert_eq!(game.body_board(), 0);
    assert_eq!(game.score(), 0);
    assert_eq!(game.health(), 100);
    assert_eq!(game.snake_len(), 1);
    assert_alive_invariants(&game);
    assert_eq!(game.food_board().count_ones(), 1);
    assert_eq!(game.step(1), Ok(()));
    assert!(game.done());
}

#[test]
fn reset_twice_gives_the_same_state() {
    let mut game = Game::new(5);
    assert_eq!(game.step(0), Ok(()));
    game.reset();
    assert!(game.place_food(Some(3)));
    let first = (
        game.done(),
        game.score(),
        game.health(),
        game.head_board(),
        game.body_board(),
        game.food_board(),
        game.size(),
        game.snake_len(),
    );
    game.reset();
    assert!(game.place_food(Some(3)));
    let second = (
        game.done(),
        game.score(),
        game.health(),
        game.head_board(),
        game.body_board(),
        game.food_board(),
        game.size(),
        game.snake_len(),
    );
    assert_eq!(first, second);
    assert_eq!(first, (false, 0, 100, bit(12), 0, bit(3), 5, 1));
}

#[test]
fn cells_show_head_food_and_body() {
    let mut game = Game::new(4);
    eat(&mut game, 9, 0);
    assert!(game.place_food(Some(2)));
    assert_eq!(game.cell(9), Cell::Head);
    assert_eq!(game.cell(8), Cell::Body);
    assert_eq!(game.cell(2), Cell::Food);
    assert_eq!(game.cell(0), Cell::Empty);
    assert_eq!(game.cell(15), Cell::Empty);
    assert_eq!(game.cell(128), Cell::Empty);
    assert_eq!(game.cell(255), Cell::Empty);
}

#[test]
fn test_bit_reads_single_cells() {
    assert!(test_bit(1, 0));
    assert!(!test_bit(1, 1));
    assert!(test_bit(1u128 << 127, 127));
    assert!(!test_bit(1u128 << 127, 126));
    assert!(test_bit(0b1010, 3));
    assert!(!test_bit(0, 64));
}

#[test]
fn random_play_keeps_the_invariants() {
    let mut rng = rand::thread_rng();
    for size in [2u8, 3, 4, 7, 11] {
        let mut game = Game::new(size);
        for _ in 0..200 {
            game.reset();
            assert_alive_invariants(&game);
            let mut ticks = 0;
            while !game.done() {
                let len = game.snake_len();
                let score = game.score();
                let health = game.health();
                let food = game.food_board();
                let action: u8 = rng.gen_range(0..=3);
                assert_eq!(game.step(action), Ok(()));
                assert!(game.health() <= 100);
                if game.score() == score + 1 {
                    assert_eq!(game.snake_len(), len + 1);
                    assert_eq!(game.health(), 100);
                    assert_eq!(game.head_board(), food);
                } else {
                    assert_eq!(game.score(), score);
                    assert_eq!(game.snake_len(), len);
                    assert_eq!(game.health(), health - 1);
                    assert_eq!(game.food_board(), food);
                }
                if game.health() <= 0 {
                    assert!(game.done());
                }
                if !game.done() {
                    assert_alive_invariants(&game);
                }
                ticks += 1;
                assert!(ticks <= 100 * (size as u32 * size as u32));
            }
        }
    }
}
