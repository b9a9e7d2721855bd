use grid_2d::{validate, Coord, CoordSystem, Size, XThenY};

#[test]
fn coord_to_index() {
    let size = Size::new(4, 3);

    assert_eq!(size.coord(12), None);
    assert_eq!(size.coord(11), Some(Coord::new(3, 2)));
    assert_eq!(size.coord(0), Some(Coord::new(0, 0)));
    assert_eq!(size.index(Coord::new(0, 0)), Some(0));
}

#[test]
fn normalize() {
    assert_eq!(Coord::new(5, 2).normalize(Size::new(2, 3)), Coord::new(1, 2));
    assert_eq!(Coord::new(-4, 3).normalize(Size::new(3, 1)), Coord::new(2, 0));
}

#[test]
fn normalize_part_wraps_into_range() {
    assert_eq!(Coord::normalize_part(-7, 3), 2);
    assert_eq!(Coord::normalize_part(7, 3), 1);
    assert_eq!(Coord::normalize_part(0, 3), 0);
    assert_eq!(Coord::normalize_part(-3, 3), 0);
    assert_eq!(Coord::normalize_part(i32::MIN, 1), 0);
    let w = 5u32;
    for value in -20i32..20 {
        let r = Coord::normalize_part(value, w);
        assert!(0 <= r && r < w as i32);
        assert_eq!((value - r).rem_euclid(w as i32), 0);
    }
}

#[test]
fn index_round_trips() {
    let size = Size::new(4, 3);
    for i in 0..12usize {
        let c = size.coord(i).unwrap();
        assert_eq!(size.index(c), Some(i));
    }
    assert_eq!(size.index(Coord::new(3, 2)), Some(11));
    assert_eq!(size.index(Coord::new(-1, 0)), None);
    assert_eq!(size.index(Coord::new(0, 3)), None);
    assert_eq!(size.index(Coord::new(4, 0)), None);
}

#[test]
fn normalized_index_in_range() {
    let size = Size::new(4, 3);
    let n = Coord::new(-1, -1).normalize(size);
    assert_eq!(n, Coord::new(3, 2));
    let index = size.index(n).unwrap();
    assert_eq!(index, 2 * 4 + 3);
    assert!(index < size.count());
    for x in -9i32..9 {
        for y in -9i32..9 {
            let n = Coord::new(x, y).normalize(size);
            let index = size.index(n).unwrap();
            assert!(index < size.count());
            assert_eq!(index as i32, n.y * 4 + n.x);
        }
    }
}

#[test]
fn tiling_is_periodic() {
    let size = Size::new(2, 3);
    for x in -6i32..6 {
        for y in -6i32..6 {
            let a = Coord::new(x, y).normalize(size);
            let b = Coord::new(x + 2, y - 3).normalize(size);
            assert_eq!(a, b);
        }
    }
}

#[test]
fn size_accessors() {
    let size = Size::new(7, 9);
    assert_eq!(size.x(), 7);
    assert_eq!(size.y(), 9);
    assert_eq!(size.count(), 63);
    assert_eq!(Size::new(0, 5).count(), 0);
    let t = size.transpose();
    assert_eq!(t.x(), 9);
    assert_eq!(t.y(), 7);
    assert_eq!(Coord::new(2, 5).transpose(), Coord::new(5, 2));
}

#[test]
fn coords_row_major_order() {
    let size = Size::new(3, 2);
    let coords = size.coords();
    let expected = vec![
        Coord::new(0, 0),
        Coord::new(1, 0),
        Coord::new(2, 0),
        Coord::new(0, 1),
        Coord::new(1, 1),
        Coord::new(2, 1),
    ];
    assert_eq!(coords, expected);
    for (i, c) in coords.iter().enumerate() {
        assert_eq!(size.index(*c), Some(i));
    }
    assert_eq!(Size::new(0, 0).coords(), vec![]);
    assert_eq!(Size::new(1, 1).coords(), vec![Coord::new(0, 0)]);
}

#[test]
fn x_then_y() {
    assert!(validate(&XThenY::new(Size::new(37, 51))));
    assert!(validate(&XThenY::new(Size::new(1, 1))));
    assert!(validate(&XThenY::new(Size::new(0, 0))));
}

#[test]
fn coord_system_methods() {
    let system = XThenY::new(Size::new(4, 3));
    assert_eq!(system.size(), Size::new(4, 3));
    assert_eq!(system.index_of_coord(Coord::new(3, 2)), Some(11));
    assert_eq!(system.index_of_coord(Coord::new(4, 2)), None);
    assert_eq!(system.index_of_coord_checked(Coord::new(1, 1)), 5);
    assert_eq!(system.index_of_normalized_coord(Coord::new(-1, -1)), 11);
    let coords = system.coord_iter();
    assert_eq!(coords.len(), 12);
    for (i, c) in coords.iter().enumerate() {
        assert_eq!(system.index_of_coord_unchecked(*c), i);
    }
}

#[test]
fn edge_coords_visit_boundary_once() {
    let size = Size::new(4, 3);
    let edge = size.edge_coords();
    assert_eq!(edge.len(), 2 * (4 + 3) - 4);
    for (i, a) in edge.iter().enumerate() {
        assert!(size.is_on_edge(*a));
        for b in edge.iter().skip(i + 1) {
            assert_ne!(*a, *b);
        }
    }
    for c in size.coords() {
        if size.is_on_edge(c) {
            assert!(edge.contains(&c));
        }
    }
}

#[test]
fn edge_coords_degenerate_sizes() {
    assert_eq!(Size::new(0, 0).edge_coords().len(), 0);
    assert_eq!(Size::new(0, 7).edge_coords().len(), 0);
    assert_eq!(Size::new(7, 0).edge_coords().len(), 0);
    assert_eq!(Size::new(1, 1).edge_coords(), vec![Coord::new(0, 0)]);
    assert_eq!(Size::new(5, 1).edge_coords().len(), 5);
    assert_eq!(Size::new(1, 4).edge_coords().len(), 4);
    assert_eq!(Size::new(2, 2).edge_coords().len(), 4);
    let row = Size::new(5, 1).edge_coords();
    for (i, c) in row.iter().enumerate() {
        assert_eq!(*c, Coord::new(i as i32, 0));
    }
}

#[test]
fn is_on_edge_cases() {
    let size = Size::new(4, 3);
    assert!(size.is_on_edge(Coord::new(0, 0)));
    assert!(size.is_on_edge(Coord::new(3, 0)));
    assert!(size.is_on_edge(Coord::new(0, 2)));
    assert!(size.is_on_edge(Coord::new(3, 2)));
    assert!(size.is_on_edge(Coord::new(2, 0)));
    assert!(size.is_on_edge(Coord::new(0, 1)));
    assert!(!size.is_on_edge(Coord::new(1, 1)));
    assert!(!size.is_on_edge(Coord::new(2, 1)));
    assert!(!size.is_on_edge(Coord::new(4, 0)));
    assert!(!size.is_on_edge(Coord::new(-1, 0)));
}

#[test]
fn is_valid_rejects_negatives() {
    let size = Size::new(3, 3);
    assert!(Coord::new(0, 0).is_valid(size));
    assert!(Coord::new(2, 2).is_valid(size));
    assert!(!Coord::new(-1, 0).is_valid(size));
    assert!(!Coord::new(0, -1).is_valid(size));
    assert!(!Coord::new(3, 0).is_valid(size));
    assert!(!Coord::new(0, 3).is_valid(size));
}
