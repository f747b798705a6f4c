use viralsweeper::{get_neighbours, GRID_SIZE};

#[test]
fn neighbours_of_interior_cell() {
    let nbrs = get_neighbours(8, 8);
    assert_eq!(nbrs.len(), 8);
    for dr in -1i32..=1 {
        for dc in -1i32..=1 {
            if dr == 0 && dc == 0 {
                continue;
            }
            let p = ((8 + dr) as usize, (8 + dc) as usize);
            assert!(nbrs.contains(&p), "missing neighbour {:?}", p);
        }
    }
    assert!(!nbrs.contains(&(8, 8)));
}

#[test]
fn neighbours_of_corner_cells() {
    let nbrs = get_neighbours(0, 0);
    assert_eq!(nbrs.len(), 3);
    assert!(nbrs.contains(&(0, 1)));
    assert!(nbrs.contains(&(1, 0)));
    assert!(nbrs.contains(&(1, 1)));

    let last = GRID_SIZE - 1;
    let nbrs = get_neighbours(last, last);
    assert_eq!(nbrs.len(), 3);
    assert!(nbrs.contains(&(last - 1, last - 1)));
    assert!(nbrs.contains(&(last - 1, last)));
    assert!(nbrs.contains(&(last, last - 1)));
}

#[test]
fn neighbours_of_edge_cell() {
    let nbrs = get_neighbours(0, 5);
    assert_eq!(nbrs.len(), 5);
    assert!(nbrs.contains(&(0, 4)));
    assert!(nbrs.contains(&(0, 6)));
    assert!(nbrs.contains(&(1, 4)));
    assert!(nbrs.contains(&(1, 5)));
    assert!(nbrs.contains(&(1, 6)));
}

#[test]
fn neighbours_listed_once_each() {
    for row in [0usize, 7, 15] {
        for col in [0usize, 7, 15] {
            let nbrs = get_neighbours(row, col);
            for i in 0..nbrs.len() {
                for j in (i + 1)..nbrs.len() {
                    assert_ne!(nbrs[i], nbrs[j]);
                }
            }
        }
    }
}
