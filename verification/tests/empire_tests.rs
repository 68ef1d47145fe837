use simulation::hex_empire_sim::{HexEmpireSimulation, SpawnError, CONTESTED, EARTH, SEA};
use simulation::hex_geom::{HexGeometry, OffsetCoord};

fn grid(rows: usize, cols: usize, fill: u8) -> Vec<Vec<u8>> {
    let mut g = Vec::new();
    for _ in 0..rows {
        let mut row = Vec::new();
        for _ in 0..cols {
            row.push(fill);
        }
        g.push(row);
    }
    g
}

#[test]
fn test_spawn_on_sea_only_grid_reports_and_changes_nothing() {
    let geo = HexGeometry::new(4, 3);
    let mut sim = HexEmpireSimulation::new(&geo, grid(3, 4, SEA));
    let r = sim.interact_new_random_empire();
    assert_eq!(r, Err(SpawnError::NoFreeEarth));
    // The grid is untouched and the registry is still empty.
    for y in 0..3 {
        for x in 0..4 {
            assert_eq!(sim.get_cell(x, y), Some(SEA));
        }
    }
    for idx in 0..253 {
        assert!(sim.empire(idx).is_none());
    }
}

#[test]
fn test_spawn_claims_the_only_land_cell() {
    let geo = HexGeometry::new(2, 2);
    let mut g = grid(2, 2, SEA);
    g[0][1] = EARTH;
    let mut sim = HexEmpireSimulation::new(&geo, g);
    let r = sim.interact_new_random_empire();
    assert_eq!(r, Ok(2));
    assert_eq!(sim.get_cell(1, 0), Some(2));
    let e = sim.empire(0).expect("slot 0 should be taken");
    assert_eq!(e.id, 2);
    assert_eq!(e.name, "Empire 2");
}

#[test]
fn test_spawn_exhausts_slots() {
    let geo = HexGeometry::new(20, 20);
    let mut sim = HexEmpireSimulation::new(&geo, grid(20, 20, EARTH));
    for i in 0..253u32 {
        let r = sim.interact_new_random_empire();
        assert_eq!(r, Ok((i + 2) as u8));
    }
    // Every slot is taken now; the next spawn reports exhaustion.
    let r = sim.interact_new_random_empire();
    assert_eq!(r, Err(SpawnError::NoFreeSlot));
    // Names cover one-, two- and three-digit ids.
    assert_eq!(sim.empire(0).unwrap().name, "Empire 2");
    assert_eq!(sim.empire(10).unwrap().name, "Empire 12");
    assert_eq!(sim.empire(98).unwrap().name, "Empire 100");
    assert_eq!(sim.empire(252).unwrap().name, "Empire 254");
}

#[test]
fn test_empire_step_spreads_greatest_owner() {
    let geo = HexGeometry::new(3, 3);
    let mut g = grid(3, 3, EARTH);
    g[1][1] = 5;
    let mut sim = HexEmpireSimulation::new(&geo, g);
    sim.step();
    // The six neighbours of (1, 1) adopt owner 5; the two non-adjacent
    // corners stay land; the owned cell keeps its exact value.
    let adopted = [(2, 1), (2, 0), (1, 0), (0, 1), (1, 2), (2, 2)];
    for y in 0..3 {
        for x in 0..3 {
            let v = sim.get_cell(x, y).unwrap();
            if (x, y) == (1, 1) {
                assert_eq!(v, 5);
            } else if adopted.contains(&(x, y)) {
                assert_eq!(v, 5, "cell ({}, {})", x, y);
            } else {
                assert_eq!(v, EARTH, "cell ({}, {})", x, y);
            }
        }
    }
}

#[test]
fn test_empire_step_sea_border_becomes_contested() {
    let geo = HexGeometry::new(3, 3);
    let mut g = grid(3, 3, EARTH);
    g[0][0] = SEA;
    let mut sim = HexEmpireSimulation::new(&geo, g);
    sim.step();
    // Only (1, 0) and (0, 1) border the sea cell; they become contested.
    for y in 0..3 {
        for x in 0..3 {
            let v = sim.get_cell(x, y).unwrap();
            if (x, y) == (0, 0) {
                assert_eq!(v, SEA);
            } else if (x, y) == (1, 0) || (x, y) == (0, 1) {
                assert_eq!(v, CONTESTED, "cell ({}, {})", x, y);
            } else {
                assert_eq!(v, EARTH, "cell ({}, {})", x, y);
            }
        }
    }
}

#[test]
fn test_owned_cells_never_revert() {
    let geo = HexGeometry::new(4, 4);
    let mut g = grid(4, 4, EARTH);
    g[2][1] = 7;
    g[0][3] = SEA;
    let mut sim = HexEmpireSimulation::new(&geo, g);
    for _ in 0..6 {
        sim.step();
        // The claimed cell keeps its owner id forever; sea stays sea.
        assert_eq!(sim.get_cell(1, 2), Some(7));
        assert_eq!(sim.get_cell(3, 0), Some(SEA));
    }
}

#[test]
fn test_get_empire_by_axial() {
    let geo = HexGeometry::new(2, 2);
    let mut g = grid(2, 2, SEA);
    g[0][1] = EARTH;
    let mut sim = HexEmpireSimulation::new(&geo, g);
    sim.interact_new_random_empire().expect("spawn should succeed");
    // The claimed cell resolves to its empire.
    let a = OffsetCoord { x: 1, y: 0 }.axial();
    let e = sim.get_empire_by_axial(a).expect("claimed cell has an empire");
    assert_eq!(e.id, 2);
    assert_eq!(e.name, "Empire 2");
    // A sea cell has no empire; coordinates outside the grid have no cell.
    assert!(sim.get_empire_by_axial(OffsetCoord { x: 0, y: 0 }.axial()).is_none());
    assert!(sim.get_empire_by_axial(OffsetCoord { x: 5, y: 0 }.axial()).is_none());
    assert!(sim.get_empire_by_axial(OffsetCoord { x: 0, y: -3 }.axial()).is_none());
}

#[test]
fn test_empire_registry_accessor_bounds() {
    let geo = HexGeometry::new(2, 2);
    let sim = HexEmpireSimulation::new(&geo, grid(2, 2, EARTH));
    assert!(sim.empire(0).is_none());
    assert!(sim.empire(252).is_none());
    assert!(sim.empire(253).is_none());
    assert!(sim.empire(10_000).is_none());
}
