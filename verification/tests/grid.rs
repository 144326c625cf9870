use rusnake::grid::{is_opposite, step, Cell, Direction};

#[test]
fn step_moves_one_cell_inside_the_grid() {
    let c = Cell { x: 4, y: 4 };
    assert_eq!(step(c, Direction::Right, 12, 12), Cell { x: 5, y: 4 });
    assert_eq!(step(c, Direction::Left, 12, 12), Cell { x: 3, y: 4 });
    assert_eq!(step(c, Direction::Down, 12, 12), Cell { x: 4, y: 5 });
    assert_eq!(step(c, Direction::Up, 12, 12), Cell { x: 4, y: 3 });
}

#[test]
fn step_wraps_on_every_edge() {
    assert_eq!(step(Cell { x: 11, y: 4 }, Direction::Right, 12, 12), Cell { x: 0, y: 4 });
    assert_eq!(step(Cell { x: 0, y: 4 }, Direction::Left, 12, 12), Cell { x: 11, y: 4 });
    assert_eq!(step(Cell { x: 4, y: 11 }, Direction::Down, 12, 12), Cell { x: 4, y: 0 });
    assert_eq!(step(Cell { x: 4, y: 0 }, Direction::Up, 12, 12), Cell { x: 4, y: 11 });
}

#[test]
fn opposites() {
    assert!(is_opposite(Direction::Up, Direction::Down));
    assert!(is_opposite(Direction::Down, Direction::Up));
    assert!(is_opposite(Direction::Left, Direction::Right));
    assert!(is_opposite(Direction::Right, Direction::Left));
    assert!(!is_opposite(Direction::Up, Direction::Left));
    assert!(!is_opposite(Direction::Right, Direction::Right));
}
