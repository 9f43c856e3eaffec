use chips::viewer::{Key, Speed, State, World};
use chips::RuleError;

#[test]
fn state_transitions() {
    assert_eq!(State::Normal.next(Key::Escape), State::Settings);
    assert_eq!(State::Paused.next(Key::Escape), State::Settings);
    assert_eq!(State::Settings.next(Key::Escape), State::Normal);
    assert_eq!(State::Normal.next(Key::Space), State::Paused);
    assert_eq!(State::Paused.next(Key::Space), State::Normal);
    assert_eq!(State::Settings.next(Key::Space), State::Settings);
    assert_eq!(State::Normal.next(Key::Right), State::Normal);
    assert_eq!(State::Paused.next(Key::Other), State::Paused);
}

#[test]
fn speed_constructors() {
    assert_eq!(Speed::new(), Speed::Normal);
    assert_eq!(Speed::new_overclocked(0), Speed::Normal);
    assert_eq!(Speed::new_overclocked(1), Speed::Normal);
    assert_eq!(Speed::new_overclocked(4), Speed::Overclocked(4));
    assert_eq!(Speed::new_underclocked(1), Speed::Normal);
    assert_eq!(Speed::new_underclocked(3), Speed::Underclocked(3));
}

#[test]
fn frames_follow_speed_and_state() {
    let mut world = World::new("B3/S23").unwrap();
    assert_eq!(world.frame(false), 1);
    world.speed = Speed::new_overclocked(5);
    assert_eq!(world.frame(false), 5);
    world.speed = Speed::new_underclocked(3);
    let steps: Vec<usize> = (0..7).map(|_| world.frame(false)).collect();
    assert_eq!(steps, vec![1, 0, 0, 1, 0, 0, 1]);
    world.state = State::Paused;
    assert_eq!(world.frame(false), 0);
    assert_eq!(world.frame(true), 1);
    world.state = State::Settings;
    assert_eq!(world.frame(true), 0);
}

#[test]
fn rule_changes_trim_and_keep_world_on_error() {
    let mut world = World::new("B3/S23").unwrap();
    assert!(world.machine.simulate(true, 2));
    assert_eq!(world.new_rule("  B36/S3 \n"), Ok(()));
    assert!(world.machine.simulate(false, 6));
    assert!(!world.machine.simulate(true, 2));
    assert_eq!(world.new_rule("B36S3"), Err(RuleError::MissingSeparator));
    assert!(world.machine.simulate(false, 6));
    assert_eq!(World::new("x").err(), Some(RuleError::MissingSeparator));
}
