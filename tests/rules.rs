use chips::{decode_index, encode_index, ConwaysLife, LifeLike, MooreNeighborhood, RuleError};

#[test]
fn conways_life_compiles() {
    let _life = LifeLike::new("B3/S23").unwrap();
}

#[test]
fn lifelike_compiles_valid_strings() {
    for rule in ["B/S", "B3/S23", "b36/s23", "B012345678/S012345678", "B33/S2323", "B9/S9"] {
        assert!(LifeLike::new(rule).is_ok(), "{}", rule);
    }
}

#[test]
fn lifelike_rejects_malformed_strings() {
    assert_eq!(LifeLike::new("B3/S2é").err(), Some(RuleError::NotAscii));
    assert_eq!(LifeLike::new("B3S23").err(), Some(RuleError::MissingSeparator));
    assert_eq!(LifeLike::new("3/S23").err(), Some(RuleError::MissingBirthPrefix));
    assert_eq!(LifeLike::new("/S23").err(), Some(RuleError::MissingBirthPrefix));
    assert_eq!(LifeLike::new("B3/23").err(), Some(RuleError::MissingSurvivalPrefix));
    assert_eq!(LifeLike::new("B3/").err(), Some(RuleError::MissingSurvivalPrefix));
    assert_eq!(LifeLike::new("Bx/S23").err(), Some(RuleError::BadBirthDigit));
    assert_eq!(LifeLike::new("B3/S2/3").err(), Some(RuleError::BadSurvivalDigit));
    assert_eq!(
        RuleError::MissingSeparator.message(),
        "invalid definition string format"
    );
}

#[test]
fn lifelike_matches_logic() {
    let life = LifeLike::new("B3/S23").unwrap();
    for neighbors in 0usize..9 {
        assert_eq!(
            ConwaysLife::simulate_with_logic(true, neighbors),
            life.simulate(true, neighbors)
        );
        assert_eq!(
            ConwaysLife::simulate_with_logic(false, neighbors),
            life.simulate(false, neighbors)
        );
    }
}

#[test]
fn b3s23_examples() {
    let life = LifeLike::new("B3/S23").unwrap();
    assert!(life.simulate(false, 3));
    assert!(life.simulate(true, 2));
    assert!(!life.simulate(true, 1));
    assert!(!life.simulate(false, 2));
    assert!(!life.simulate(true, 4));
}

#[test]
fn other_rule_reads_its_digits() {
    let highlife = LifeLike::new("b36/s23").unwrap();
    assert!(highlife.simulate(false, 6));
    assert!(highlife.simulate(false, 3));
    assert!(!highlife.simulate(false, 2));
    assert!(!highlife.simulate(true, 6));
    let empty = LifeLike::new("B/S").unwrap();
    for n in 0..9 {
        assert!(!empty.simulate(false, n));
        assert!(!empty.simulate(true, n));
    }
}

#[test]
fn lifelike_index_reversible() {
    for neighbors in 0usize..40 {
        assert_eq!((true, neighbors & 0b1111), decode_index(encode_index(true, neighbors)));
        assert_eq!((false, neighbors & 0b1111), decode_index(encode_index(false, neighbors)));
    }
    assert_eq!(encode_index(true, 3), 7);
    assert_eq!(encode_index(false, 8), 16);
    assert_eq!(encode_index(false, 17), 2);
    assert_eq!(decode_index(17), (true, 8));
}

#[test]
fn lookup_table_matches_logic_and_rule_table() {
    let life = LifeLike::new("B3/S23").unwrap();
    let conway = ConwaysLife::new();
    for status in [false, true] {
        for code in 0..=255u8 {
            let alive = MooreNeighborhood::from_code(code).alive_count();
            assert_eq!(code.count_ones() as usize, alive);
            let logic = ConwaysLife::logic(status, code);
            assert_eq!(conway.lookup(status, code), logic);
            assert_eq!(life.simulate(status, alive), logic);
        }
    }
}
