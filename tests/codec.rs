use chips::{CodecError, MooreNeighborhood};

#[test]
fn codec_round_trip_every_byte() {
    for code in 0..=255u8 {
        let hood = MooreNeighborhood::from_code(code);
        let cells = hood.to_bools();
        let again = MooreNeighborhood::from_bools(&cells).unwrap();
        assert_eq!(again.code(), code);
    }
}

#[test]
fn codec_round_trip_every_sequence() {
    for n in 0..256u32 {
        let cells: Vec<bool> = (0..8).map(|k| (n >> k) & 1 == 1).collect();
        let hood = MooreNeighborhood::from_bools(&cells).unwrap();
        assert_eq!(hood.to_bools().to_vec(), cells);
    }
}

#[test]
fn codec_bit_order() {
    let top_left = [true, false, false, false, false, false, false, false];
    assert_eq!(MooreNeighborhood::from_bools(&top_left).unwrap().code(), 1);
    let left = [false, false, false, false, false, false, false, true];
    assert_eq!(MooreNeighborhood::from_bools(&left).unwrap().code(), 128);
    assert_eq!(MooreNeighborhood::from_array(&left).code(), 128);
    assert_eq!(MooreNeighborhood::from_code(0b1010_0101).alive_count(), 4);
}

#[test]
fn codec_rejects_wrong_length() {
    assert_eq!(
        MooreNeighborhood::from_bools(&[true; 7]),
        Err(CodecError::WrongLength(7))
    );
    assert_eq!(
        MooreNeighborhood::from_bools(&[false; 9]),
        Err(CodecError::WrongLength(9))
    );
}
