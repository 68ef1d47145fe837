use simulation::Simulation;
use simulation::geometry::Geometry;
use simulation::rect_geom::{InnerNCells, RectGeometry, Vec2i};

#[test]
fn test_glider_pattern() {
    let geometry = RectGeometry::new(Vec2i { x: 0, y: 0 }, 10, 10, Vec2i { x: 1, y: 1 });

    let mut sim = Simulation::new(&geometry);

    // Set up glider pattern at position (1,1)
    // Pattern:
    //  X
    //   XX
    // XX
    let glider_positions = [
        (2, 1), // top
        (3, 2), // middle right
        (1, 3), // bottom left
        (2, 3), // bottom middle
        (3, 3), // bottom right
    ];

    for (x, y) in glider_positions {
        let id = y * 10 + x;
        sim.set(id, 1);
    }

    // Step 4 times to see glider movement
    for _ in 0..4 {
        sim.step();
    }

    let mut alive_count: usize = 0;
    for y in 0..10 {
        for x in 0..10 {
            let id = y * 10 + x;
            if let Some(state) = sim.get(id) {
                if state.val > 0 {
                    alive_count += 1;
                }
            }
        }
    }

    // Glider should maintain 5 alive cells
    assert_eq!(alive_count, 5, "Glider should maintain 5 alive cells");
}

#[test]
fn test_glider_translates_diagonally() {
    let geometry = RectGeometry::new(Vec2i { x: 0, y: 0 }, 10, 10, Vec2i { x: 1, y: 1 });
    let mut sim = Simulation::new(&geometry);
    let glider_positions = [(2, 1), (3, 2), (1, 3), (2, 3), (3, 3)];
    for (x, y) in glider_positions {
        sim.set(y * 10 + x, 1);
    }
    for _ in 0..4 {
        sim.step();
    }
    // After four generations the glider reappears shifted by (1, 1).
    let expected = [(3, 2), (4, 3), (2, 4), (3, 4), (4, 4)];
    for y in 0..10 {
        for x in 0..10 {
            let alive = sim.get(y * 10 + x).unwrap().val > 0;
            assert_eq!(alive, expected.contains(&(x, y)), "cell ({}, {})", x, y);
        }
    }
}

#[test]
fn test_blinker_oscillates() {
    let geometry = RectGeometry::new(Vec2i { x: 0, y: 0 }, 5, 5, Vec2i { x: 1, y: 1 });
    let mut sim = Simulation::new(&geometry);
    // Horizontal blinker in the middle row.
    for (x, y) in [(1, 2), (2, 2), (3, 2)] {
        sim.set(y * 5 + x, 1);
    }
    sim.step();
    // One step turns it vertical.
    let vertical = [(2, 1), (2, 2), (2, 3)];
    for y in 0..5 {
        for x in 0..5 {
            let alive = sim.get(y * 5 + x).unwrap().val > 0;
            assert_eq!(alive, vertical.contains(&(x, y)), "cell ({}, {})", x, y);
        }
    }
    sim.step();
    // A second step restores the horizontal phase: period two.
    let horizontal = [(1, 2), (2, 2), (3, 2)];
    for y in 0..5 {
        for x in 0..5 {
            let alive = sim.get(y * 5 + x).unwrap().val > 0;
            assert_eq!(alive, horizontal.contains(&(x, y)), "cell ({}, {})", x, y);
        }
    }
}

#[test]
fn test_step_deterministic() {
    let geometry = RectGeometry::new(Vec2i { x: 0, y: 0 }, 6, 6, Vec2i { x: 1, y: 1 });
    let seed = [(1, 1), (2, 1), (3, 2), (1, 3), (4, 4), (2, 2)];
    let mut a = Simulation::new(&geometry);
    let mut b = Simulation::new(&geometry);
    for (x, y) in seed {
        a.set(y * 6 + x, 1);
        b.set(y * 6 + x, 1);
    }
    for _ in 0..5 {
        a.step();
        b.step();
    }
    for i in 0..geometry.size() {
        assert_eq!(a.get(i).unwrap().val, b.get(i).unwrap().val);
    }
}

#[test]
fn test_get_and_set_out_of_range() {
    let geometry = RectGeometry::new(Vec2i { x: 0, y: 0 }, 4, 4, Vec2i { x: 1, y: 1 });
    let mut sim = Simulation::new(&geometry);
    assert!(sim.get(15).is_some());
    assert!(sim.get(16).is_none());
    assert!(sim.set(3, 1));
    assert!(!sim.set(16, 1));
    assert_eq!(sim.get(3).unwrap().val, 1);
}

#[test]
fn test_geo_accessor() {
    let geometry = RectGeometry::new(Vec2i { x: 0, y: 0 }, 4, 3, Vec2i { x: 2, y: 2 });
    let sim = Simulation::new(&geometry);
    assert_eq!(sim.geo().size(), 12);
}
