use chips::{Bits, Pattern, PatternError};

fn lines(text: &str) -> Vec<&str> {
    text.lines().collect()
}

#[test]
fn plaintext_pattern() {
    let pattern = "!Name: Glider\n\
                           !\n\
                           .O.\n\
                           ..O\n\
                           OOO";
    let pattern = Pattern::from_plaintext(&lines(pattern)).unwrap();

    assert_eq!(pattern.size(), (3, 3));
    assert_eq!(
        pattern.cells(),
        vec![false, true, false, false, false, true, true, true, true]
    );
}

#[test]
fn plaintext_pattern_trims_lines() {
    let pattern = Pattern::from_plaintext(&["  .O  ", "", "OO\t"]).unwrap();
    assert_eq!(pattern.size(), (2, 2));
    assert_eq!(pattern.cells(), vec![false, true, true, true]);
}

#[test]
fn plaintext_pattern_errors() {
    assert_eq!(
        Pattern::from_plaintext(&["!only a comment", ""]).err(),
        Some(PatternError::NoPatternLines)
    );
    assert_eq!(
        Pattern::from_plaintext(&[".O.", "OO"]).err(),
        Some(PatternError::UnequalLines)
    );
    assert_eq!(
        Pattern::from_plaintext(&["   ", "  "]).err(),
        Some(PatternError::BlankLines)
    );
    assert_eq!(
        Pattern::from_rows(&["O", ""]).err(),
        Some(PatternError::UnequalLines)
    );
}

#[test]
fn place_copies_rows_at_offset() {
    let glider = Pattern::from_plaintext(&[".O.", "..O", "OOO"]).unwrap();
    let mut world = Bits::repeat(true, 30);
    glider.place(&mut world, (5, 5), (1, 2)).unwrap();
    let cells = world.to_vec();
    for y in 0..6 {
        for x in 0..5 {
            let i = y * 5 + x;
            let expected = if y < 5 && (1..4).contains(&x) && (2..5).contains(&y) {
                [false, true, false, false, false, true, true, true, true][(y - 2) * 3 + (x - 1)]
            } else {
                true
            };
            assert_eq!(cells[i], expected, "cell {}", i);
        }
    }
}

#[test]
fn place_rejects_bad_sizes() {
    let glider = Pattern::from_plaintext(&[".O.", "..O", "OOO"]).unwrap();
    let mut world = Bits::repeat(false, 16);
    assert_eq!(
        glider.place(&mut world, (5, 5), (0, 0)),
        Err(PatternError::WorldTooSmall)
    );
    assert_eq!(
        glider.place(&mut world, (4, 4), (2, 0)),
        Err(PatternError::NoSpace)
    );
    assert_eq!(
        glider.place(&mut world, (4, 4), (0, usize::MAX)),
        Err(PatternError::NoSpace)
    );
    assert_eq!(world.to_vec(), vec![false; 16]);
    assert!(glider.place(&mut world, (4, 4), (1, 1)).is_ok());
}

#[test]
fn midpoint_placement() {
    let glider = Pattern::from_plaintext(&[".O.", "..O", "OOO"]).unwrap();
    assert_eq!(glider.calc_midpoint_placement((10, 8)), Ok((3, 2)));
    assert_eq!(glider.calc_midpoint_placement((3, 3)), Ok((0, 0)));
    assert_eq!(
        glider.calc_midpoint_placement((2, 9)),
        Err(PatternError::NoSpace)
    );
}
