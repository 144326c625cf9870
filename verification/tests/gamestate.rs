use rusnake::config::Config;
use rusnake::gamestate::{GameState, State};
use rusnake::grid::{Cell, Direction};

fn test_config() -> Config {
    Config {
        tiles: (12, 12),
        tile_size: (64, 64),
        bg_color: (0, 0, 0),
        snake_color: (127, 127, 127),
        food_color: (255, 255, 255),
        text_color: (255, 255, 127),
        padding: 8,
        tick_ms: 150,
    }
}

fn cells(v: &[(u16, u16)]) -> Vec<Cell> {
    let mut out = Vec::new();
    for &(x, y) in v {
        out.push(Cell { x, y });
    }
    out
}

/// Starts a fresh session and brings it into the Ongoing state.
fn started() -> GameState {
    let mut g = GameState::new(test_config());
    g.update(201);
    assert!(g.handle_space());
    assert_eq!(g.lifecycle(), State::Ongoing);
    g
}

fn tick(g: &mut GameState) -> rusnake::gamestate::TickEvents {
    let ev = g.update(150);
    assert!(ev.moved);
    ev
}

#[test]
fn spawn_configuration() {
    let g = GameState::new(test_config());
    assert_eq!(*g.snake_cells(), cells(&[(1, 1), (2, 1), (3, 1)]));
    assert_eq!(g.food(), Cell { x: 5, y: 5 });
    assert_eq!(g.direction(), Direction::Right);
    assert_eq!(g.lifecycle(), State::Waiting);
}

#[test]
fn first_tick_moves_body() {
    let mut g = started();
    let ev = tick(&mut g);
    assert_eq!(*g.snake_cells(), cells(&[(2, 1), (3, 1), (4, 1)]));
    assert_eq!(g.lifecycle(), State::Ongoing);
    assert!(!ev.died);
    assert!(!ev.ate);
}

#[test]
fn body_length_constant_without_eating() {
    let mut g = started();
    for _ in 0..7 {
        let ev = tick(&mut g);
        assert!(!ev.ate);
        assert_eq!(g.snake_cells().len(), 3);
    }
}

#[test]
fn wrap_at_right_edge() {
    let mut g = started();
    for _ in 0..8 {
        tick(&mut g);
    }
    assert_eq!(*g.snake_cells(), cells(&[(9, 1), (10, 1), (11, 1)]));
    tick(&mut g);
    assert_eq!(*g.snake_cells(), cells(&[(10, 1), (11, 1), (0, 1)]));
    assert_eq!(g.snake_cells()[2], Cell { x: 0, y: 1 });
    assert_eq!(g.lifecycle(), State::Ongoing);
}

/// Drives a fresh session onto the food at (5,5); the snake ends at length 4.
fn eaten() -> GameState {
    let mut g = started();
    tick(&mut g);
    tick(&mut g);
    assert_eq!(g.snake_cells()[2], Cell { x: 5, y: 1 });
    g.handle_direction(Direction::Down);
    for _ in 0..3 {
        let ev = tick(&mut g);
        assert!(!ev.ate);
    }
    let ev = tick(&mut g);
    assert!(ev.ate);
    assert!(!ev.died);
    g
}

#[test]
fn eating_grows_body_by_one() {
    let g = eaten();
    assert_eq!(
        *g.snake_cells(),
        cells(&[(5, 3), (5, 4), (5, 5), (5, 6)])
    );
    assert_eq!(g.snake_cells().len(), 4);
    assert_eq!(g.lifecycle(), State::Ongoing);
}

#[test]
fn eating_relocates_food_off_the_snake() {
    let g = eaten();
    let food = g.food();
    let (w, h) = g.config().tiles;
    assert!(1 <= food.x && food.x <= w - 2);
    assert!(1 <= food.y && food.y <= h - 2);
    for c in g.snake_cells() {
        assert_ne!(*c, food);
    }
}

#[test]
fn double_turn_into_second_segment_dies() {
    let mut g = eaten();
    // Two quick turns between ticks: each alone is legal, together they send
    // the head back onto the cell right behind it.
    g.handle_direction(Direction::Right);
    g.handle_direction(Direction::Up);
    assert_eq!(g.direction(), Direction::Up);
    let ev = tick(&mut g);
    assert!(ev.died);
    assert!(!ev.ate);
    assert_eq!(g.lifecycle(), State::Dead);
    // The body is frozen in the colliding configuration, length unchanged.
    assert_eq!(
        *g.snake_cells(),
        cells(&[(5, 4), (5, 5), (5, 6), (5, 5)])
    );
}

#[test]
fn dead_session_never_moves() {
    let mut g = eaten();
    g.handle_direction(Direction::Right);
    g.handle_direction(Direction::Up);
    tick(&mut g);
    assert_eq!(g.lifecycle(), State::Dead);
    let frozen = g.snake_cells().clone();
    let ev = g.update(150);
    assert!(!ev.moved);
    assert_eq!(*g.snake_cells(), frozen);
    assert_eq!(g.lifecycle(), State::Dead);
}

#[test]
fn restart_from_dead_reaches_spawn() {
    let mut g = eaten();
    g.handle_direction(Direction::Right);
    g.handle_direction(Direction::Up);
    tick(&mut g);
    assert_eq!(g.lifecycle(), State::Dead);
    g.update(250);
    assert!(g.handle_space());
    let fresh = GameState::new(test_config());
    assert_eq!(*g.snake_cells(), *fresh.snake_cells());
    assert_eq!(g.food(), fresh.food());
    assert_eq!(g.direction(), fresh.direction());
    assert_eq!(g.lifecycle(), State::Waiting);
}

#[test]
fn opposite_direction_is_ignored() {
    let mut g = started();
    assert_eq!(g.direction(), Direction::Right);
    g.handle_direction(Direction::Left);
    assert_eq!(g.direction(), Direction::Right);
    g.handle_direction(Direction::Down);
    assert_eq!(g.direction(), Direction::Down);
    g.handle_direction(Direction::Up);
    assert_eq!(g.direction(), Direction::Down);
}

#[test]
fn direction_intents_ignored_while_waiting() {
    let mut g = GameState::new(test_config());
    g.handle_direction(Direction::Down);
    assert_eq!(g.direction(), Direction::Right);
}

#[test]
fn rapid_start_intents_fire_once() {
    let mut g = GameState::new(test_config());
    g.update(300);
    assert!(g.handle_space());
    assert_eq!(g.lifecycle(), State::Ongoing);
    // Within the debounce window: no further transition.
    assert!(!g.handle_space());
    assert!(!g.handle_space());
    assert_eq!(g.lifecycle(), State::Ongoing);
}

#[test]
fn start_needs_debounce_interval() {
    let mut g = GameState::new(test_config());
    g.update(100);
    assert!(!g.handle_space());
    assert_eq!(g.lifecycle(), State::Waiting);
    // Exactly the threshold is still too soon: strictly more is needed.
    g.update(100);
    assert!(!g.handle_space());
    assert_eq!(g.lifecycle(), State::Waiting);
    g.update(1);
    assert!(g.handle_space());
    assert_eq!(g.lifecycle(), State::Ongoing);
}

#[test]
fn pause_and_resume() {
    let mut g = started();
    tick(&mut g);
    g.update(250);
    assert!(g.handle_space());
    assert_eq!(g.lifecycle(), State::Paused);
    let body = g.snake_cells().clone();
    // The paused session never moves, however long the frame.
    let ev = g.update(10_000);
    assert!(!ev.moved);
    assert_eq!(*g.snake_cells(), body);
    g.update(250);
    assert!(g.handle_space());
    assert_eq!(g.lifecycle(), State::Ongoing);
}

#[test]
fn tick_fires_only_at_interval() {
    let mut g = started();
    let ev = g.update(100);
    assert!(!ev.moved);
    let ev = g.update(49);
    assert!(!ev.moved);
    let ev = g.update(1);
    assert!(ev.moved);
    // The accumulator reset: the next short frame does not move again.
    let ev = g.update(149);
    assert!(!ev.moved);
}

#[test]
fn invariants_hold_through_play() {
    let mut g = started();
    let turns = [
        Direction::Down,
        Direction::Right,
        Direction::Up,
        Direction::Right,
        Direction::Down,
        Direction::Left,
        Direction::Down,
        Direction::Right,
    ];
    for round in 0..40 {
        g.handle_direction(turns[round % turns.len()]);
        g.update(150);
        let (w, h) = g.config().tiles;
        for c in g.snake_cells() {
            assert!(c.x < w && c.y < h);
        }
        let food = g.food();
        assert!(food.x < w && food.y < h);
        if g.lifecycle() != State::Dead {
            for c in g.snake_cells() {
                assert_ne!(*c, food);
            }
        }
    }
}
