use cherry_sim::game_parts::{cherries_after_roll, roll_option_from_index, Game, RollOption};

#[test]
fn game_returns_positive_roll_count() {
    for _ in 0..50 {
        let mut g = Game::new();
        let rolls = g.game();
        assert!(rolls >= 1);
    }
}

#[test]
fn roll_option_mapping_covers_all_faces() {
    assert_eq!(roll_option_from_index(0), RollOption::OopsNoCherries);
    assert_eq!(roll_option_from_index(1), RollOption::OneCherry);
    assert_eq!(roll_option_from_index(2), RollOption::TwoCherry);
    assert_eq!(roll_option_from_index(3), RollOption::ThreeCherry);
    assert_eq!(roll_option_from_index(4), RollOption::FourCherry);
    assert_eq!(roll_option_from_index(5), RollOption::Bird);
    assert_eq!(roll_option_from_index(6), RollOption::Dog);
}

#[test]
fn cherry_outcomes_subtract() {
    assert_eq!(cherries_after_roll(10, RollOption::OneCherry), 9);
    assert_eq!(cherries_after_roll(10, RollOption::TwoCherry), 8);
    assert_eq!(cherries_after_roll(10, RollOption::ThreeCherry), 7);
    assert_eq!(cherries_after_roll(10, RollOption::FourCherry), 6);
    assert_eq!(cherries_after_roll(2, RollOption::TwoCherry), 0);
}

#[test]
fn cherry_counter_can_pass_zero_transiently() {
    assert_eq!(cherries_after_roll(1, RollOption::FourCherry), -3);
    assert_eq!(cherries_after_roll(3, RollOption::FourCherry), -1);
}

#[test]
fn bird_and_dog_clamp_at_ten() {
    assert_eq!(cherries_after_roll(9, RollOption::Bird), 10);
    assert_eq!(cherries_after_roll(10, RollOption::Dog), 10);
    assert_eq!(cherries_after_roll(8, RollOption::Bird), 10);
    assert_eq!(cherries_after_roll(7, RollOption::Dog), 9);
}

#[test]
fn spill_resets_to_ten() {
    assert_eq!(cherries_after_roll(1, RollOption::OopsNoCherries), 10);
    assert_eq!(cherries_after_roll(10, RollOption::OopsNoCherries), 10);
}
