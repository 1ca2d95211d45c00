use verlet::array2d::Array2D;
use verlet::grid;
use verlet::UNIT;

#[test]
fn test() {
    let mut array: Array2D<String> = Array2D::new(10, 10, String::new());
    array.insert(String::from("coucou"), 0, 9);

    println!("{}", array.get(0, 9));
    println!("{:?}", array.try_get(0, 8));
}

#[test]
fn insertion_test() {
    const CELL_SIZE: i64 = 10 * 1_000_000;

    let mut grid = grid::new(CELL_SIZE, 100 * UNIT, 100 * UNIT);

    grid::insert(&mut grid, (0, 0), 0, CELL_SIZE);
    grid::insert(&mut grid, (0, 0), 1, CELL_SIZE);
    grid::insert(&mut grid, (UNIT / 2, 0), 2, CELL_SIZE);
    grid::insert(&mut grid, (0, UNIT / 2), 3, CELL_SIZE);
    grid::insert(&mut grid, (UNIT / 2, UNIT / 2), 4, CELL_SIZE);

    grid::insert(&mut grid, (10 * UNIT, 0), 5, CELL_SIZE);
    grid::insert(&mut grid, (0, 10 * UNIT), 6, CELL_SIZE);
    grid::insert(&mut grid, (10 * UNIT, 10 * UNIT), 7, CELL_SIZE);
    grid::insert(&mut grid, (21 * UNIT, 21 * UNIT), 8, CELL_SIZE);

    assert!(
        grid.get(0, 0).contains(&0)
            && grid.get(0, 0).contains(&1)
            && grid.get(0, 0).contains(&2)
            && grid.get(0, 0).contains(&3)
            && grid.get(0, 0).contains(&4)
    );

    println!("{:?}", grid.get(0, 0));
}

#[test]
fn array2d_insert_then_get() {
    let mut a: Array2D<u64> = Array2D::new(3, 4, 0);
    assert_eq!(a.get_width(), 4);
    assert_eq!(a.get_height(), 3);
    assert_eq!(a.total_size(), 12);
    a.insert(7, 2, 1);
    assert_eq!(*a.get(2, 1), 7);
    assert_eq!(*a.get(0, 0), 0);
}

#[test]
fn array2d_try_get_bounds() {
    let a: Array2D<u64> = Array2D::new(2, 2, 9);
    assert!(a.try_get(1, 1).is_some());
    assert!(a.try_get(2, 0).is_none());
    assert!(a.try_get(0, 2).is_none());
}

#[test]
fn array2d_try_get_mut_as_1d_bounds() {
    let mut a: Array2D<u64> = Array2D::new(2, 3, 1);
    assert!(a.try_get_mut_as_1d(5).is_some());
    assert!(a.try_get_mut_as_1d(6).is_none());
    *a.get_mut_as_1d(0) = 42;
    assert_eq!(*a.get(0, 0), 42);
    *a.get_mut(1, 1) = 5;
    assert_eq!(*a.get(1, 1), 5);
    if let Some(cell) = a.try_get_mut(2, 0) {
        *cell = 8;
    }
    assert_eq!(*a.get(2, 0), 8);
}

#[test]
fn grid_insert_out_of_bounds_is_silent() {
    let cell = 10 * UNIT;
    let mut g = grid::new(cell, 100 * UNIT, 100 * UNIT);
    grid::insert(&mut g, (-5 * UNIT, 0), 0, cell);
    grid::insert(&mut g, (0, -1), 1, cell);
    grid::insert(&mut g, (100 * UNIT, 0), 2, cell);
    grid::insert(&mut g, (0, 2000 * UNIT), 3, cell);
    let mut total = 0;
    for y in 0..g.get_height() {
        for x in 0..g.get_width() {
            total += g.get(x, y).len();
        }
    }
    assert_eq!(total, 0);
}

#[test]
fn grid_clear_twice_equals_once() {
    let cell = 10 * UNIT;
    let mut g = grid::new(cell, 50 * UNIT, 50 * UNIT);
    grid::insert(&mut g, (5 * UNIT, 5 * UNIT), 0, cell);
    grid::insert(&mut g, (15 * UNIT, 5 * UNIT), 1, cell);
    grid::clear_uniform_grid_simple(&mut g);
    let mut snapshot: Vec<Vec<usize>> = Vec::new();
    for y in 0..g.get_height() {
        for x in 0..g.get_width() {
            snapshot.push(g.get(x, y).clone());
        }
    }
    grid::clear_uniform_grid_simple(&mut g);
    let mut again: Vec<Vec<usize>> = Vec::new();
    for y in 0..g.get_height() {
        for x in 0..g.get_width() {
            again.push(g.get(x, y).clone());
        }
    }
    assert_eq!(snapshot, again);
    assert!(again.iter().all(|c| c.is_empty()));
}
