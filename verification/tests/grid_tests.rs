use grid_2d::{Coord, Get2Error, Grid, Size};

fn coord_grid(size: Size) -> Grid<Coord> {
    Grid::new_fn(size, |coord| coord)
}

#[test]
fn grid_tiling() {
    let mut grid = coord_grid(Size::new(2, 3));
    assert_eq!(*grid.get_tiled(Coord::new(-10, -30)), Coord::new(0, 0));
    *grid.get_tiled_mut(Coord::new(-12, -12)) = Coord::new(1000, 1000);
    assert_eq!(*grid.get_tiled(Coord::new(10, 30)), Coord::new(1000, 1000));
}

#[test]
fn lib_tiling() {
    let mut grid = coord_grid(Size::new(2, 3));
    assert_eq!(*grid.get_tiled(Coord::new(-10, -30)), Coord::new(0, 0));
    *grid.get_tiled_mut(Coord::new(-12, -12)) = Coord::new(1000, 1000);
    assert_eq!(*grid.get_tiled(Coord::new(10, 30)), Coord::new(1000, 1000));
}

#[test]
fn grid_enumerate() {
    let mut grid = coord_grid(Size::new(24, 42));
    grid.enumerate()
        .into_iter()
        .for_each(|(coord, cell)| assert_eq!(coord, *cell));
    for coord in grid.coord_iter() {
        *grid.get_checked_mut(coord) = Coord::new(coord.x * 3, coord.y * 3);
    }
    grid.enumerate()
        .into_iter()
        .for_each(|(coord, cell)| assert_eq!(Coord::new(coord.x * 3, coord.y * 3), *cell));
}

#[test]
fn lib_enumerate() {
    let mut grid = coord_grid(Size::new(24, 42));
    grid.enumerate()
        .into_iter()
        .for_each(|(coord, cell)| assert_eq!(coord, *cell));
    for coord in grid.coord_iter() {
        *grid.get_checked_mut(coord) = Coord::new(coord.x * 3, coord.y * 3);
    }
    grid.enumerate()
        .into_iter()
        .for_each(|(coord, cell)| assert_eq!(Coord::new(coord.x * 3, coord.y * 3), *cell));
}

#[test]
fn grid_index() {
    let mut grid = coord_grid(Size::new(7, 9));
    let index = grid.index_of_coord(Coord::new(5, 3)).unwrap();
    assert_eq!(index, 26);
    *grid.get_index_checked_mut(index) = Coord::new(1000, 1000);
    assert_eq!(*grid.get_index_checked(index), Coord::new(1000, 1000));
}

#[test]
fn lib_index() {
    let mut grid = coord_grid(Size::new(7, 9));
    let index = grid.index_of_coord(Coord::new(5, 3)).unwrap();
    assert_eq!(index, 26);
    *grid.get_index_checked_mut(index) = Coord::new(1000, 1000);
    assert_eq!(*grid.get_index_checked(index), Coord::new(1000, 1000));
}

#[test]
fn get2_checked_mut() {
    let mut grid = coord_grid(Size::new(4, 4));
    let (a, b) = grid.get2_checked_mut(Coord::new(1, 2), Coord::new(2, 1));
    std::mem::swap(a, b);
    assert_eq!(*grid.get_checked(Coord::new(1, 2)), Coord::new(2, 1));
    assert_eq!(*grid.get_checked(Coord::new(2, 1)), Coord::new(1, 2));
}

#[test]
fn get2_mut_error_kinds() {
    let mut grid = coord_grid(Size::new(4, 4));
    assert_eq!(
        grid.get2_mut(Coord::new(1, 2), Coord::new(1, 2)).unwrap_err(),
        Get2Error::CoordsEqual
    );
    assert_eq!(
        grid.get2_mut(Coord::new(-1, 2), Coord::new(1, 2)).unwrap_err(),
        Get2Error::LeftOutOfBounds
    );
    assert_eq!(
        grid.get2_mut(Coord::new(1, 2), Coord::new(4, 0)).unwrap_err(),
        Get2Error::RightOutOfBounds
    );
    let (a, b) = grid.get2_mut(Coord::new(0, 0), Coord::new(3, 3)).unwrap();
    std::mem::swap(a, b);
    assert_eq!(*grid.get_checked(Coord::new(0, 0)), Coord::new(3, 3));
    assert_eq!(*grid.get_checked(Coord::new(3, 3)), Coord::new(0, 0));
}

#[test]
fn out_of_bounds_get_is_none() {
    let mut grid = coord_grid(Size::new(2, 3));
    assert_eq!(grid.get(Coord::new(0, 3)), None);
    assert_eq!(grid.get(Coord::new(2, 0)), None);
    assert_eq!(grid.get(Coord::new(-1, 0)), None);
    assert_eq!(grid.get_mut(Coord::new(0, 3)), None);
    assert_eq!(grid.index_of_coord(Coord::new(0, 3)), None);
    assert_eq!(*grid.get(Coord::new(1, 2)).unwrap(), Coord::new(1, 2));
}

#[test]
fn get_mut_writes_through() {
    let mut grid = coord_grid(Size::new(3, 3));
    if let Some(cell) = grid.get_mut(Coord::new(2, 1)) {
        *cell = Coord::new(9, 9);
    }
    assert_eq!(*grid.get_checked(Coord::new(2, 1)), Coord::new(9, 9));
}

#[test]
fn try_new_iterator_checks_length() {
    let size = Size::new(2, 2);
    let grid = Grid::try_new_iterator(size, vec![1, 2, 3, 4]).unwrap();
    assert_eq!(*grid.get_checked(Coord::new(0, 0)), 1);
    assert_eq!(*grid.get_checked(Coord::new(1, 0)), 2);
    assert_eq!(*grid.get_checked(Coord::new(0, 1)), 3);
    assert_eq!(*grid.get_checked(Coord::new(1, 1)), 4);
    assert!(Grid::try_new_iterator(size, vec![1, 2, 3]).is_err());
    assert!(Grid::try_new_iterator(size, Vec::<i32>::new()).is_err());
}

#[test]
fn new_iterator_row_major_interpretation() {
    let grid = Grid::new_iterator(Size::new(3, 2), vec![10, 11, 12, 13, 14, 15]);
    for i in 0..6usize {
        let c = Coord::new((i % 3) as i32, (i / 3) as i32);
        assert_eq!(*grid.get_checked(c), 10 + i as i32);
    }
}

#[test]
fn fill_constructors() {
    let size = Size::new(3, 2);
    let cloned: Grid<String> = Grid::new_clone(size, "cell".to_string());
    for c in cloned.coord_iter() {
        assert_eq!(cloned.get_checked(c), "cell");
    }
    let copied: Grid<u8> = Grid::new_copy(size, 7);
    for c in copied.coord_iter() {
        assert_eq!(*copied.get_checked(c), 7);
    }
    let defaulted: Grid<u64> = Grid::new_default(size);
    assert_eq!(defaulted.len(), 6);
    for c in defaulted.coord_iter() {
        assert_eq!(*defaulted.get_checked(c), 0);
    }
}

#[test]
fn map_constructors() {
    let size = Size::new(2, 2);
    let base = Grid::new_iterator(size, vec![1, 2, 3, 4]);

    let doubled = base.map_ref(|v: &i32| v * 2);
    assert_eq!(doubled.raw(), &[2, 4, 6, 8]);

    let with_coord = base.map_ref_with_coord(|c, v: &i32| (c.x + c.y) as i32 * 10 + v);
    assert_eq!(with_coord.raw(), &[1, 12, 13, 24]);

    let consumed = base.clone().map(|v: i32| v + 100);
    assert_eq!(consumed.raw(), &[101, 102, 103, 104]);

    let consumed_with_coord = base.clone().map_with_coord(|c, v: i32| v + c.y);
    assert_eq!(consumed_with_coord.raw(), &[1, 2, 4, 5]);

    let mapped = Grid::new_grid_map(base.clone(), |v: i32| v - 1);
    assert_eq!(mapped.raw(), &[0, 1, 2, 3]);

    assert_eq!(base.raw(), &[1, 2, 3, 4]);
}

#[test]
fn transpose_clone_mirrors_cells() {
    let grid = Grid::new_iterator(Size::new(3, 2), vec![1, 2, 3, 4, 5, 6]);
    let t = grid.transpose_clone();
    assert_eq!(t.size(), Size::new(2, 3));
    for c in t.coord_iter() {
        assert_eq!(
            *t.get_checked(c),
            *grid.get_checked(Coord::new(c.y, c.x))
        );
    }
    assert_eq!(t.raw(), &[1, 4, 2, 5, 3, 6]);
}

#[test]
fn rows_split_backing_store() {
    let grid = Grid::new_iterator(Size::new(3, 2), vec![1, 2, 3, 4, 5, 6]);
    let rows = grid.rows();
    assert_eq!(rows.len(), 2);
    assert_eq!(rows[0], &[1, 2, 3]);
    assert_eq!(rows[1], &[4, 5, 6]);
}

#[test]
fn raw_views() {
    let mut grid = Grid::new_iterator(Size::new(2, 2), vec![1, 2, 3, 4]);
    assert_eq!(grid.raw(), &[1, 2, 3, 4]);
    grid.raw_mut()[2] = 30;
    assert_eq!(grid.raw(), &[1, 2, 30, 4]);
    assert_eq!(*grid.get_checked(Coord::new(0, 1)), 30);
}

#[test]
fn into_enumerate_pairs_cells() {
    let grid = coord_grid(Size::new(3, 3));
    for (coord, cell) in grid.into_enumerate() {
        assert_eq!(coord, cell);
    }
}

#[test]
fn grid_geometry_accessors() {
    let grid: Grid<u8> = Grid::new_copy(Size::new(5, 4), 0);
    assert_eq!(grid.width(), 5);
    assert_eq!(grid.height(), 4);
    assert_eq!(grid.size(), Size::new(5, 4));
    assert_eq!(grid.len(), 20);
    assert!(grid.is_on_edge(Coord::new(0, 3)));
    assert!(!grid.is_on_edge(Coord::new(2, 2)));
}

#[test]
fn edge_iteration_visits_each_boundary_cell_once() {
    let grid = coord_grid(Size::new(4, 3));
    let edge_coords = grid.edge_coord_iter();
    assert_eq!(edge_coords.len(), 2 * (4 + 3) - 4);
    let edge_cells = grid.edge_iter();
    assert_eq!(edge_cells.len(), edge_coords.len());
    for (c, cell) in edge_coords.iter().zip(edge_cells.iter()) {
        assert_eq!(*c, **cell);
    }
    for (i, (c, cell)) in grid.edge_enumerate().into_iter().enumerate() {
        assert_eq!(c, *cell);
        assert_eq!(c, edge_coords[i]);
    }
}

#[test]
fn edge_mutation_through_indices() {
    let mut grid: Grid<i32> = Grid::new_copy(Size::new(4, 4), 0);
    let edge_coords = grid.edge_coord_iter();
    for c in edge_coords.iter() {
        *grid.get_checked_mut(*c) = 1;
    }
    for c in grid.coord_iter() {
        let expected = if grid.is_on_edge(c) { 1 } else { 0 };
        assert_eq!(*grid.get_checked(c), expected);
    }
}

#[test]
fn edge_iter_mut_yields_disjoint_views() {
    let mut grid: Grid<i32> = Grid::new_copy(Size::new(4, 3), 0);
    let views = grid.edge_iter_mut();
    assert_eq!(views.len(), 2 * (4 + 3) - 4);
    for (i, cell) in views.into_iter().enumerate() {
        *cell = i as i32 + 1;
    }
    let edge_coords = grid.edge_coord_iter();
    for (i, c) in edge_coords.iter().enumerate() {
        assert_eq!(*grid.get_checked(*c), i as i32 + 1);
    }
    for c in grid.coord_iter() {
        if !grid.is_on_edge(c) {
            assert_eq!(*grid.get_checked(c), 0);
        }
    }
}

#[test]
fn row_mut_writes_one_row() {
    let mut grid = Grid::new_iterator(Size::new(3, 3), vec![1, 2, 3, 4, 5, 6, 7, 8, 9]);
    let row = grid.row_mut(1);
    assert_eq!(row, &[4, 5, 6]);
    row[0] = 40;
    row[2] = 60;
    assert_eq!(grid.raw(), &[1, 2, 3, 40, 5, 60, 7, 8, 9]);
}

#[test]
fn iter_mut_covers_every_cell() {
    let mut grid = Grid::new_iterator(Size::new(2, 2), vec![1, 2, 3, 4]);
    for cell in grid.iter_mut() {
        *cell *= 10;
    }
    assert_eq!(grid.raw(), &[10, 20, 30, 40]);
}
