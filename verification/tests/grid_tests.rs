use tower_defense::grid::{CellType, Grid};
use tower_defense::level::{Level, Point};

#[test]
fn cells_classify_start_end_waypoint_path_empty() {
    let path = vec![
        Point { x: 0, y: 0 },
        Point { x: 1, y: 0 },
        Point { x: 2, y: 0 },
    ];
    let level = Level::from_parts(3, 2, path, vec![Point { x: 1, y: 0 }]).unwrap();
    let grid = Grid::new(&level);
    assert_eq!(grid.cells.len(), 2);
    assert_eq!(grid.cells[0].len(), 3);
    assert_eq!(grid.cells[0][0], CellType::Start);
    assert_eq!(grid.cells[0][1], CellType::Waypoint);
    assert_eq!(grid.cells[0][2], CellType::End);
    assert_eq!(grid.cells[1][0], CellType::Empty);
    assert_eq!(grid.cells[1][1], CellType::Empty);
    assert_eq!(grid.path, level.path);
}

#[test]
fn plain_path_cells_are_marked_path() {
    let path = vec![
        Point { x: 0, y: 0 },
        Point { x: 1, y: 0 },
        Point { x: 2, y: 0 },
        Point { x: 3, y: 0 },
    ];
    let level = Level::from_parts(4, 1, path, Vec::new()).unwrap();
    let grid = Grid::new(&level);
    assert_eq!(grid.cells[0][1], CellType::Path);
    assert_eq!(grid.cells[0][2], CellType::Path);
}
