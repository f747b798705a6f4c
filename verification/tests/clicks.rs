use viralsweeper::{click, count_hidden_cells, with_viruses, Cell, Field, Outcome, GRID_SIZE, VIRUSES};

/// How many cells currently are Hidden(true), Hidden(false), Neighbours
/// and Infected, in that order.
fn state_counts(f: &Field) -> (usize, usize, usize, usize) {
    let mut ht = 0;
    let mut hf = 0;
    let mut nb = 0;
    let mut inf = 0;
    for r in 0..GRID_SIZE {
        for c in 0..GRID_SIZE {
            match f.get(r, c) {
                Cell::Hidden(true) => ht += 1,
                Cell::Hidden(false) => hf += 1,
                Cell::Neighbours(_) => nb += 1,
                Cell::Infected => inf += 1,
            }
        }
    }
    (ht, hf, nb, inf)
}

/// Thirty hazard positions walling off the bottom of the board: all of
/// row 14, and row 15 up to column 13. Only (15,14) and (15,15) stay
/// safe below the wall.
fn bottom_wall() -> Vec<(usize, usize)> {
    let mut v = Vec::new();
    for c in 0..GRID_SIZE {
        v.push((14, c));
    }
    for c in 0..14 {
        v.push((15, c));
    }
    assert_eq!(v.len(), VIRUSES);
    v
}

#[test]
fn first_click_is_safe_and_seeds_thirty_hazards() {
    let mut f = Field::new();
    let ev = click(&mut f, 8, 8);
    assert_ne!(ev, Outcome::Defeat);
    assert_eq!(f.clicks(), 1);
    // the clicked cell is revealed
    assert!(matches!(f.get(8, 8), Cell::Neighbours(_)));
    // neither the clicked cell nor any of its neighbours carries a hazard
    for r in 7..=9 {
        for c in 7..=9 {
            assert_ne!(f.get(r, c), Cell::Hidden(true));
            assert_ne!(f.get(r, c), Cell::Infected);
        }
    }
    // exactly VIRUSES hazards were placed, and nothing detonated
    let (ht, hf, nb, inf) = state_counts(&f);
    assert_eq!(ht, VIRUSES);
    assert_eq!(inf, 0);
    assert_eq!(ht + hf + nb + inf, GRID_SIZE * GRID_SIZE);
}

#[test]
fn state_counts_partition_the_board_at_all_times() {
    let mut f = Field::new();
    let (ht, hf, nb, inf) = state_counts(&f);
    assert_eq!((ht, hf, nb, inf), (0, GRID_SIZE * GRID_SIZE, 0, 0));
    click(&mut f, 0, 0);
    let (ht, hf, nb, inf) = state_counts(&f);
    assert_eq!(ht + hf + nb + inf, GRID_SIZE * GRID_SIZE);
    assert_eq!(ht, VIRUSES);
    click(&mut f, 15, 15);
    let (ht, hf, nb, inf) = state_counts(&f);
    assert_eq!(ht + hf + nb + inf, GRID_SIZE * GRID_SIZE);
    // hazards are never created or destroyed after seeding
    assert_eq!(ht + inf, VIRUSES);
}

#[test]
fn cell_with_two_hazardous_neighbours_reveals_two_and_stops() {
    let mut hazards = vec![(4usize, 4usize), (4, 5)];
    for c in 0..14 {
        hazards.push((14, c));
    }
    for c in 0..14 {
        hazards.push((15, c));
    }
    assert_eq!(hazards.len(), VIRUSES);
    let mut f = with_viruses(&hazards);
    let ev = click(&mut f, 5, 5);
    assert_eq!(ev, Outcome::Proceed);
    assert_eq!(f.get(5, 5), Cell::Neighbours(2));
    // no cascade: everything else is still hidden
    let (ht, hf, nb, inf) = state_counts(&f);
    assert_eq!(nb, 1);
    assert_eq!(ht, VIRUSES);
    assert_eq!(hf, GRID_SIZE * GRID_SIZE - VIRUSES - 1);
    assert_eq!(inf, 0);
}

#[test]
fn cascade_reveals_whole_safe_region_with_correct_labels() {
    let mut f = with_viruses(&bottom_wall());
    let ev = click(&mut f, 0, 0);
    assert_eq!(ev, Outcome::Proceed);
    // rows far from the wall border no hazard and are revealed blank
    for r in 0..13 {
        for c in 0..GRID_SIZE {
            assert_eq!(f.get(r, c), Cell::Neighbours(0), "at ({}, {})", r, c);
        }
    }
    // the boundary row is revealed with its own hazard-neighbour counts
    for c in 0..GRID_SIZE {
        let expected = if c == 0 || c == 15 { 2 } else { 3 };
        assert_eq!(f.get(13, c), Cell::Neighbours(expected), "at (13, {})", c);
    }
    // the wall itself and the two safe cells behind it stay hidden
    for c in 0..GRID_SIZE {
        assert_eq!(f.get(14, c), Cell::Hidden(true));
    }
    for c in 0..14 {
        assert_eq!(f.get(15, c), Cell::Hidden(true));
    }
    assert_eq!(f.get(15, 14), Cell::Hidden(false));
    assert_eq!(f.get(15, 15), Cell::Hidden(false));
    assert_eq!(count_hidden_cells(&f), VIRUSES + 2);
}

#[test]
fn clicking_a_hazard_detonates_it_and_nothing_else() {
    let mut f = with_viruses(&bottom_wall());
    let ev = click(&mut f, 14, 3);
    assert_eq!(ev, Outcome::Defeat);
    assert_eq!(f.get(14, 3), Cell::Infected);
    // no other cell changed
    for r in 0..GRID_SIZE {
        for c in 0..GRID_SIZE {
            if (r, c) == (14, 3) {
                continue;
            }
            let on_wall = r == 14 || (r == 15 && c < 14);
            let expected = Cell::Hidden(on_wall);
            assert_eq!(f.get(r, c), expected, "at ({}, {})", r, c);
        }
    }
}

#[test]
fn victory_comes_exactly_on_the_last_safe_cell() {
    let mut f = with_viruses(&bottom_wall());
    assert_eq!(click(&mut f, 0, 0), Outcome::Proceed);
    assert_eq!(count_hidden_cells(&f), VIRUSES + 2);
    assert_eq!(click(&mut f, 15, 14), Outcome::Proceed);
    assert_eq!(f.get(15, 14), Cell::Neighbours(4));
    assert_eq!(count_hidden_cells(&f), VIRUSES + 1);
    assert_eq!(click(&mut f, 15, 15), Outcome::Victory);
    assert_eq!(f.get(15, 15), Cell::Neighbours(2));
    assert_eq!(count_hidden_cells(&f), VIRUSES);
}

#[test]
fn redundant_clicks_change_nothing_but_the_counter() {
    let mut f = with_viruses(&bottom_wall());
    click(&mut f, 0, 0);
    let before = state_counts(&f);
    let ev = click(&mut f, 0, 0);
    assert_eq!(ev, Outcome::Proceed);
    assert_eq!(state_counts(&f), before);
    assert_eq!(f.clicks(), 3);
}

#[test]
fn defeat_outranks_victory_when_a_hazard_detonates_late() {
    // Reveal all but one safe cell, then click a hazard: only VIRUSES
    // cells stay hidden afterwards, yet the click is still a defeat.
    let mut f = with_viruses(&bottom_wall());
    assert_eq!(click(&mut f, 0, 0), Outcome::Proceed);
    assert_eq!(click(&mut f, 15, 14), Outcome::Proceed);
    let ev = click(&mut f, 14, 0);
    assert_eq!(ev, Outcome::Defeat);
    assert_eq!(count_hidden_cells(&f), VIRUSES);
}

#[test]
fn fresh_board_is_fully_hidden() {
    let f = Field::new();
    assert_eq!(f.clicks(), 0);
    assert_eq!(count_hidden_cells(&f), GRID_SIZE * GRID_SIZE);
    for r in 0..GRID_SIZE {
        for c in 0..GRID_SIZE {
            assert_eq!(f.get(r, c), Cell::Hidden(false));
        }
    }
}
