use snake_game::game::{
    generate_food, is_opposite, step, tick_interval_ms, Direction, Game, Pos, HEIGHT, WIDTH,
};
use snake_game::ledger::DataConfig;
use std::collections::VecDeque;

fn game_at(snake: Vec<Pos>, food: Pos, direction: Direction) -> Game {
    Game::from_parts(snake, food, direction, DataConfig::empty()).expect("valid position")
}

#[test]
fn new_game_starts_at_centre_heading_right() {
    let g = Game::new(DataConfig::empty());
    assert_eq!(g.snake().iter().copied().collect::<Vec<Pos>>(), vec![(15, 10)]);
    assert_eq!(g.direction(), Direction::Right);
    assert_eq!(g.score(), 0);
    assert!(!g.is_over());
    let f = g.food();
    assert!(f.0 < WIDTH && f.1 < HEIGHT);
    assert_ne!(f, (15, 10));
}

#[test]
fn tick_eats_food_to_the_right() {
    let mut g = game_at(vec![(15, 10)], (16, 10), Direction::Right);
    let ended = g.update();
    assert!(!ended);
    assert!(!g.is_over());
    assert_eq!(g.snake().iter().copied().collect::<Vec<Pos>>(), vec![(16, 10), (15, 10)]);
    assert_eq!(g.score(), 1);
    let f = g.food();
    assert!(f != (16, 10) && f != (15, 10));
    assert!(f.0 < WIDTH && f.1 < HEIGHT);
}

#[test]
fn tick_left_from_column_zero_ends_the_game() {
    let mut g = game_at(vec![(0, 5)], (10, 10), Direction::Left);
    assert_eq!(step((0, 5), Direction::Left), (0, 5));
    let ended = g.update();
    assert!(ended);
    assert!(g.is_over());
    assert_eq!(g.snake().iter().copied().collect::<Vec<Pos>>(), vec![(0, 5)]);
    assert_eq!(g.data_config().scores, vec![0]);
}

#[test]
fn tick_up_from_row_zero_ends_the_game() {
    let mut g = game_at(vec![(4, 0), (5, 0)], (10, 10), Direction::Up);
    assert!(g.update());
    assert!(g.is_over());
}

#[test]
fn tick_right_off_the_grid_ends_the_game() {
    let mut g = game_at(vec![(WIDTH - 1, 3)], (0, 0), Direction::Right);
    assert!(g.update());
    assert!(g.is_over());
}

#[test]
fn tick_down_off_the_grid_ends_the_game() {
    let mut g = game_at(vec![(3, HEIGHT - 1)], (0, 0), Direction::Down);
    assert!(g.update());
    assert!(g.is_over());
}

#[test]
fn tick_into_own_body_ends_the_game() {
    let mut g = game_at(vec![(5, 5), (6, 5), (6, 6), (5, 6), (4, 6)], (0, 0), Direction::Down);
    assert!(g.update());
    assert!(g.is_over());
}

#[test]
fn tick_onto_the_tail_cell_ends_the_game() {
    let mut g = game_at(vec![(5, 5), (6, 5), (6, 6), (5, 6)], (0, 0), Direction::Down);
    assert!(g.update());
    assert!(g.is_over());
}

#[test]
fn tick_after_game_over_changes_nothing() {
    let mut g = game_at(vec![(0, 5)], (10, 10), Direction::Left);
    assert!(g.update());
    assert!(!g.update());
    assert!(g.is_over());
    assert_eq!(g.data_config().scores, vec![0]);
    assert_eq!(g.snake().len(), 1);
}

#[test]
fn tick_without_food_moves_the_chain() {
    let mut g = game_at(vec![(5, 5), (4, 5), (3, 5)], (20, 15), Direction::Right);
    assert!(!g.update());
    assert_eq!(g.snake().iter().copied().collect::<Vec<Pos>>(), vec![(6, 5), (5, 5), (4, 5)]);
    assert_eq!(g.score(), 0);
    assert_eq!(g.food(), (20, 15));
}

#[test]
fn game_over_records_score_in_ledger() {
    let ledger = DataConfig::from_scores(vec![5, 1]);
    let mut g = Game::from_parts(vec![(WIDTH - 2, 0)], (WIDTH - 1, 0), Direction::Right, ledger)
        .expect("valid position");
    assert!(!g.update());
    assert_eq!(g.score(), 1);
    assert!(g.update());
    assert_eq!(g.data_config().scores, vec![5, 1, 1]);
}

#[test]
fn reversal_is_ignored() {
    let mut g = Game::new(DataConfig::empty());
    g.change_direction(Direction::Left);
    assert_eq!(g.direction(), Direction::Right);
    g.change_direction(Direction::Up);
    assert_eq!(g.direction(), Direction::Up);
    g.change_direction(Direction::Down);
    assert_eq!(g.direction(), Direction::Up);
    g.change_direction(Direction::Left);
    g.change_direction(Direction::Down);
    assert_eq!(g.direction(), Direction::Down);
}

#[test]
fn opposite_directions() {
    assert!(is_opposite(Direction::Up, Direction::Down));
    assert!(is_opposite(Direction::Left, Direction::Right));
    assert!(!is_opposite(Direction::Up, Direction::Left));
    assert!(!is_opposite(Direction::Right, Direction::Right));
}

#[test]
fn step_moves_one_cell() {
    assert_eq!(step((3, 4), Direction::Up), (3, 3));
    assert_eq!(step((3, 4), Direction::Down), (3, 5));
    assert_eq!(step((3, 4), Direction::Left), (2, 4));
    assert_eq!(step((3, 4), Direction::Right), (4, 4));
    assert_eq!(step((3, 0), Direction::Up), (3, 0));
}

#[test]
fn chain_grows_by_one_per_meal_and_food_stays_clear() {
    let mut g = game_at(vec![(0, 0)], (1, 0), Direction::Right);
    let mut ticks: u32 = 0;
    while !g.is_over() && ticks < 200 {
        if g.direction() == Direction::Down {
            g.change_direction(Direction::Left);
        } else if g.direction() == Direction::Right && g.snake()[0].0 == WIDTH - 1 {
            g.change_direction(Direction::Down);
        }
        let ended = g.update();
        ticks += 1;
        if !ended {
            let f = g.food();
            assert!(!g.snake().contains(&f));
            assert_eq!(g.snake().len(), 1 + g.score() as usize);
        }
    }
    assert!(g.score() >= 1);
}

#[test]
fn generate_food_finds_the_last_free_cell() {
    let mut chain: VecDeque<Pos> = VecDeque::new();
    for y in 0..HEIGHT {
        for x in 0..WIDTH {
            if (x, y) != (7, 13) {
                chain.push_back((x, y));
            }
        }
    }
    assert_eq!(generate_food(&chain), Some((7, 13)));
    chain.push_back((7, 13));
    assert_eq!(generate_food(&chain), None);
}

#[test]
fn generate_food_avoids_the_chain() {
    let chain: VecDeque<Pos> = (0..WIDTH).map(|x| (x, 0)).collect();
    for _ in 0..50 {
        let f = generate_food(&chain).expect("free cells exist");
        assert!(f.1 >= 1 && f.1 < HEIGHT && f.0 < WIDTH);
    }
}

#[test]
fn eating_the_last_free_cell_ends_the_game() {
    let mut cells: Vec<Pos> = Vec::new();
    for y in 0..HEIGHT {
        if y % 2 == 0 {
            for x in 0..WIDTH {
                cells.push((x, y));
            }
        } else {
            for x in (0..WIDTH).rev() {
                cells.push((x, y));
            }
        }
    }
    let food = cells.remove(0);
    let head = cells[0];
    assert_eq!(head, (1, 0));
    let mut g = game_at(cells, food, Direction::Left);
    assert!(g.update());
    assert!(g.is_over());
    assert_eq!(g.score(), 1);
    assert_eq!(g.snake().len(), (WIDTH * HEIGHT) as usize);
    assert_eq!(g.data_config().scores, vec![1]);
}

#[test]
fn from_parts_rejects_bad_positions() {
    let d = || DataConfig::empty();
    assert!(Game::from_parts(vec![], (1, 1), Direction::Up, d()).is_none());
    assert!(Game::from_parts(vec![(1, 1), (1, 1)], (2, 2), Direction::Up, d()).is_none());
    assert!(Game::from_parts(vec![(WIDTH, 1)], (2, 2), Direction::Up, d()).is_none());
    assert!(Game::from_parts(vec![(1, 1)], (1, HEIGHT), Direction::Up, d()).is_none());
    assert!(Game::from_parts(vec![(1, 1), (1, 2)], (1, 2), Direction::Up, d()).is_none());
    let bad = DataConfig { scores: vec![1, 2] };
    assert!(Game::from_parts(vec![(1, 1)], (2, 2), Direction::Up, bad).is_none());
    assert!(Game::from_parts(vec![(1, 1), (1, 2)], (2, 2), Direction::Up, d()).is_some());
}

#[test]
fn tick_interval_shrinks_to_a_floor() {
    assert_eq!(tick_interval_ms(0), 150);
    assert_eq!(tick_interval_ms(4), 130);
    assert_eq!(tick_interval_ms(19), 55);
    assert_eq!(tick_interval_ms(20), 50);
    assert_eq!(tick_interval_ms(1000), 50);
}
