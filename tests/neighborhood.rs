use chips::moore_neighborhood_wrapping;

#[test]
fn neighborhood_simple() {
    let size = (3, 3);
    let cell = (1, 1); // the cell in the middle

    assert_eq!(
        [
            (0, 0),
            (1, 0),
            (2, 0),
            (2, 1),
            (2, 2),
            (1, 2),
            (0, 2),
            (0, 1)
        ],
        moore_neighborhood_wrapping(cell, size)
    );
}

#[test]
fn neighborhood_complex() {
    let size = (3, 3);
    let cell = (0, 0);

    assert_eq!(
        [
            (2, 2),
            (0, 2),
            (1, 2),
            (1, 0),
            (1, 1),
            (0, 1),
            (2, 1),
            (2, 0)
        ],
        moore_neighborhood_wrapping(cell, size)
    );
}

#[test]
fn neighborhood_left_edge_keeps_row() {
    // A cell on the left edge but not the top row wraps only its column.
    let hood = moore_neighborhood_wrapping((0, 1), (4, 3));
    assert_eq!(
        [
            (3, 0),
            (0, 0),
            (1, 0),
            (1, 1),
            (1, 2),
            (0, 2),
            (3, 2),
            (3, 1)
        ],
        hood
    );
}

#[test]
fn neighborhood_distinct_and_in_range() {
    for w in 1..7usize {
        for h in 1..7usize {
            for x in 0..w {
                for y in 0..h {
                    let hood = moore_neighborhood_wrapping((x, y), (w, h));
                    for (i, a) in hood.iter().enumerate() {
                        assert!(a.0 < w && a.1 < h);
                        if w >= 3 && h >= 3 {
                            for b in hood.iter().skip(i + 1) {
                                assert_ne!(a, b);
                            }
                        }
                    }
                }
            }
        }
    }
}

#[test]
fn neighborhood_single_cell_wraps_onto_itself() {
    assert_eq!([(0, 0); 8], moore_neighborhood_wrapping((0, 0), (1, 1)));
    let hood = moore_neighborhood_wrapping((1, 0), (3, 1));
    assert_eq!(
        [
            (0, 0),
            (1, 0),
            (2, 0),
            (2, 0),
            (2, 0),
            (1, 0),
            (0, 0),
            (0, 0)
        ],
        hood
    );
}
