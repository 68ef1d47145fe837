use simulation::geometry::Geometry;
use simulation::rect_geom::{InnerNCells, RectGeoID, RectGeometry, Vec2i};

fn setup() -> RectGeometry {
    RectGeometry {
        geocenter: Vec2i { x: 100, y: 200 },
        cells: InnerNCells { x: 5, y: 8 },
        celsize: Vec2i { x: 10, y: 5 },
    }
}

#[test]
fn test_size() {
    let geom = setup();
    assert_eq!(geom.size(), 40);
}

#[test]
fn test_cell2id_and_id2cell() {
    let geom = setup();
    let id = geom.cell2id(3, 4);
    assert_eq!(id, RectGeoID(23));
    let (x, y) = geom.id2cell(id);
    assert_eq!(x, 3);
    assert_eq!(y, 4);
}

#[test]
fn test_id2centercoord() {
    let geom = setup();
    let id = geom.cell2id(0, 0);
    let center = geom.id2centercoord(id);
    // Centre coordinates are reported doubled: (160, 365) stands for the
    // pixel position (80.0, 182.5).
    assert_eq!(center, Vec2i { x: 160, y: 365 });
}

#[test]
fn test_distance() {
    let geom = setup();
    let id1 = geom.cell2id(0, 0);
    let id2 = geom.cell2id(1, 0);
    let distance = geom.distance(id1, id2);
    // Squared Euclidean distance: the two centres are 10 pixels apart.
    assert_eq!(distance, 100);
}

#[test]
fn test_neighbours() {
    let geom = setup();
    let id = geom.cell2id(2, 3);
    let neighbours = geom.neighbours(id);
    assert_eq!(neighbours.len(), 8);
    // Orthogonal neighbors
    assert!(neighbours.contains(&geom.cell2id(1, 3)));
    assert!(neighbours.contains(&geom.cell2id(3, 3)));
    assert!(neighbours.contains(&geom.cell2id(2, 2)));
    assert!(neighbours.contains(&geom.cell2id(2, 4)));
    // Diagonal neighbors
    assert!(neighbours.contains(&geom.cell2id(1, 2)));
    assert!(neighbours.contains(&geom.cell2id(3, 2)));
    assert!(neighbours.contains(&geom.cell2id(1, 4)));
    assert!(neighbours.contains(&geom.cell2id(3, 4)));
}

#[test]
fn test_neighbours_edge() {
    let geom = setup();
    let id = geom.cell2id(0, 0);
    let neighbours = geom.neighbours(id);
    assert_eq!(neighbours.len(), 3);
    assert!(neighbours.contains(&geom.cell2id(1, 0)));
    assert!(neighbours.contains(&geom.cell2id(0, 1)));
    assert!(neighbours.contains(&geom.cell2id(1, 1)));
}

#[test]
fn test_neighbours_vertex() {
    let geom = setup();
    // Top-left corner (0,0)
    let id = geom.cell2id(0, 0);
    let neighbours = geom.neighbours(id);
    assert_eq!(neighbours.len(), 3);
    assert!(neighbours.contains(&geom.cell2id(1, 0)));
    assert!(neighbours.contains(&geom.cell2id(0, 1)));
    assert!(neighbours.contains(&geom.cell2id(1, 1)));

    // Top-right corner (4,0)
    let id = geom.cell2id(4, 0);
    let neighbours = geom.neighbours(id);
    assert_eq!(neighbours.len(), 3);
    assert!(neighbours.contains(&geom.cell2id(3, 0)));
    assert!(neighbours.contains(&geom.cell2id(4, 1)));
    assert!(neighbours.contains(&geom.cell2id(3, 1)));

    // Bottom-left corner (0,7)
    let id = geom.cell2id(0, 7);
    let neighbours = geom.neighbours(id);
    assert_eq!(neighbours.len(), 3);
    assert!(neighbours.contains(&geom.cell2id(1, 7)));
    assert!(neighbours.contains(&geom.cell2id(0, 6)));
    assert!(neighbours.contains(&geom.cell2id(1, 6)));

    // Bottom-right corner (4,7)
    let id = geom.cell2id(4, 7);
    let neighbours = geom.neighbours(id);
    assert_eq!(neighbours.len(), 3);
    assert!(neighbours.contains(&geom.cell2id(3, 7)));
    assert!(neighbours.contains(&geom.cell2id(4, 6)));
    assert!(neighbours.contains(&geom.cell2id(3, 6)));
}

#[test]
fn test_cell_id_roundtrip_all_cells() {
    let geom = setup();
    for y in 0..8 {
        for x in 0..5 {
            let id = geom.cell2id(x, y);
            assert_eq!(geom.id2cell(id), (x, y));
        }
    }
}

#[test]
fn test_neighbours_in_bounds_all_cells() {
    let geom = setup();
    let size = geom.size();
    for i in 0..size {
        for nb in geom.neighbours(RectGeoID(i)) {
            assert!(nb.0 < size);
        }
    }
}

#[test]
fn test_distance_symmetric_all_pairs() {
    let geom = setup();
    let size = geom.size();
    for a in 0..size {
        for b in 0..size {
            assert_eq!(
                geom.distance(RectGeoID(a), RectGeoID(b)),
                geom.distance(RectGeoID(b), RectGeoID(a))
            );
        }
    }
}

#[test]
fn test_start_and_cell_rectangle() {
    let geom = setup();
    // start is doubled: true start is (75.0, 180.0).
    assert_eq!(geom.start(), Vec2i { x: 150, y: 360 });
    let rect = geom.cell_rectangle(1, 2);
    assert_eq!(rect.x, 150 + 2 * 10);
    assert_eq!(rect.y, 360 + 4 * 5);
    assert_eq!(rect.width, 20);
    assert_eq!(rect.height, 10);
}
