use simulation::hex_conway_sim::HexConwaySimulation;
use simulation::hex_geom::{AxialCoord, HexGeometry, OffsetCoord};

#[test]
fn test_offset_axial_conversion() {
    // Odd rows are shifted: (x, y) -> (q, r) with q = x - (y - (y & 1)) / 2.
    let a = OffsetCoord { x: 2, y: 3 }.axial();
    assert_eq!((a.q, a.r), (1, 3));
    let a = OffsetCoord { x: 2, y: 4 }.axial();
    assert_eq!((a.q, a.r), (0, 4));
    let a = OffsetCoord { x: 0, y: 0 }.axial();
    assert_eq!((a.q, a.r), (0, 0));
    let o = AxialCoord { q: 1, r: 3 }.offset();
    assert_eq!((o.x, o.y), (2, 3));
}

#[test]
fn test_offset_axial_roundtrip() {
    for y in -8..8 {
        for x in -8..8 {
            let o = OffsetCoord { x, y };
            let back = o.axial().offset();
            assert_eq!((back.x, back.y), (x, y));
        }
    }
}

#[test]
fn test_axial_offset_roundtrip() {
    for r in -8..8 {
        for q in -8..8 {
            let a = AxialCoord { q, r };
            let back = a.offset().axial();
            assert_eq!((back.q, back.r), (q, r));
        }
    }
}

#[test]
fn test_cube_coordinates_sum_to_zero() {
    for r in -5..5 {
        for q in -5..5 {
            let c = AxialCoord { q, r }.cube();
            assert_eq!(c.q + c.r + c.s, 0);
            assert_eq!(AxialCoord { q, r }.s(), c.s);
        }
    }
}

#[test]
fn test_hex_distance_values() {
    let geo = HexGeometry::new(10, 10);
    let origin = AxialCoord { q: 0, r: 0 };
    assert_eq!(geo.distance(origin, origin), 0);
    assert_eq!(geo.distance(origin, AxialCoord { q: 1, r: 0 }), 1);
    assert_eq!(geo.distance(origin, AxialCoord { q: 1, r: -1 }), 1);
    assert_eq!(geo.distance(origin, AxialCoord { q: 3, r: -1 }), 3);
    assert_eq!(geo.distance(origin, AxialCoord { q: -2, r: -2 }), 4);
    assert_eq!(geo.distance(AxialCoord { q: 2, r: 1 }, AxialCoord { q: -1, r: 2 }), 3);
}

#[test]
fn test_hex_distance_symmetric() {
    let geo = HexGeometry::new(10, 10);
    for aq in -3..4 {
        for ar in -3..4 {
            for bq in -3..4 {
                for br in -3..4 {
                    let a = AxialCoord { q: aq, r: ar };
                    let b = AxialCoord { q: bq, r: br };
                    assert_eq!(geo.distance(a, b), geo.distance(b, a));
                }
            }
        }
    }
}

#[test]
fn test_hex_neighbours_interior() {
    let geo = HexGeometry::new(4, 3);
    // Offset (1, 1) is axial (1, 1); all six candidates stay inside 4x3.
    let nbs = geo.neighbours(OffsetCoord { x: 1, y: 1 }.axial());
    assert_eq!(nbs.len(), 6);
    let offsets: Vec<(isize, isize)> = nbs.iter().map(|a| {
        let o = a.offset();
        (o.x, o.y)
    }).collect();
    assert!(offsets.contains(&(2, 1)));
    assert!(offsets.contains(&(2, 0)));
    assert!(offsets.contains(&(1, 0)));
    assert!(offsets.contains(&(0, 1)));
    assert!(offsets.contains(&(1, 2)));
    assert!(offsets.contains(&(2, 2)));
}

#[test]
fn test_hex_neighbours_corner() {
    let geo = HexGeometry::new(4, 3);
    // The top-left corner keeps only the east and south candidates.
    let nbs = geo.neighbours(OffsetCoord { x: 0, y: 0 }.axial());
    assert_eq!(nbs.len(), 2);
    let offsets: Vec<(isize, isize)> = nbs.iter().map(|a| {
        let o = a.offset();
        (o.x, o.y)
    }).collect();
    assert!(offsets.contains(&(1, 0)));
    assert!(offsets.contains(&(0, 1)));
}

#[test]
fn test_hex_neighbours_in_bounds_all_cells() {
    let geo = HexGeometry::new(5, 4);
    for y in 0..4 {
        for x in 0..5 {
            let nbs = geo.neighbours(OffsetCoord { x, y }.axial());
            for nb in nbs {
                let o = nb.offset();
                assert!(0 <= o.x && o.x < 5);
                assert!(0 <= o.y && o.y < 4);
            }
        }
    }
}

#[test]
fn test_hex_conway_step_single_cell() {
    let geo = HexGeometry::new(3, 3);
    // Birth on exactly one live neighbour, no survival: one live cell dies
    // and every neighbour is born.
    let mut sim = HexConwaySimulation::new(&geo, &[1], &[]);
    assert!(sim.set_cell(1, 1, 1));
    sim.step();
    let expected_alive = [(2, 1), (2, 0), (1, 0), (0, 1), (1, 2), (2, 2)];
    for y in 0..3 {
        for x in 0..3 {
            let v = sim.get_cell(x, y).unwrap();
            let want = expected_alive.contains(&(x, y));
            assert_eq!(v > 0, want, "cell ({}, {})", x, y);
        }
    }
}

#[test]
fn test_hex_conway_survival_rule() {
    let geo = HexGeometry::new(3, 3);
    // Survival on zero live neighbours only: a lone live cell persists and
    // nothing is born.
    let mut sim = HexConwaySimulation::new(&geo, &[], &[0]);
    assert!(sim.set_cell(0, 0, 1));
    sim.step();
    // The lone cell at (0, 0) sees zero live neighbours, which is in the
    // survival set, so it persists; with an empty birth set nothing is born.
    for y in 0..3 {
        for x in 0..3 {
            let v = sim.get_cell(x, y).unwrap();
            assert_eq!(v > 0, (x, y) == (0, 0), "cell ({}, {})", x, y);
        }
    }
}

#[test]
fn test_hex_conway_get_set_out_of_range() {
    let geo = HexGeometry::new(3, 2);
    let mut sim = HexConwaySimulation::new(&geo, &[2], &[3, 5]);
    assert_eq!(sim.get_cell(2, 1), Some(0));
    assert_eq!(sim.get_cell(3, 0), None);
    assert_eq!(sim.get_cell(0, 2), None);
    assert!(!sim.set_cell(3, 0, 1));
    assert!(sim.set_cell(2, 1, 7));
    assert_eq!(sim.get_cell(2, 1), Some(7));
}
