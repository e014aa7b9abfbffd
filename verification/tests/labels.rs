use selfplay::alpha_zero::battle::label_battle;
use selfplay::alpha_zero::battle::next_to_move;
use selfplay::alpha_zero::generate_game::label_history;
use selfplay::alpha_zero::Score;

fn parts(values: Vec<Score>) -> Vec<u32> {
    values.iter().map(|v| v.parts()).collect()
}

#[test]
fn alternating_game_flips_every_move() {
    let outcome = Score::new(16384).unwrap();
    let values = label_history(&vec![true, true, true], outcome);
    assert_eq!(parts(values), vec![49152, 16384, 49152]);
}

#[test]
fn moves_that_keep_the_player_keep_the_value() {
    let outcome = Score::new(1000).unwrap();
    assert_eq!(parts(label_history(&vec![false, false], outcome)), vec![1000, 1000]);
    assert_eq!(
        parts(label_history(&vec![true, false, false, true, false], outcome)),
        vec![1000, 64536, 64536, 64536, 1000]
    );
    assert_eq!(parts(label_history(&vec![], outcome)), Vec::<u32>::new());
}

#[test]
fn battle_values_go_by_the_player_to_move() {
    let score = Score::new(65536).unwrap();
    let values = label_battle(&vec![true, false, false, true], false, score);
    assert_eq!(parts(values), vec![0, 65536, 65536, 0]);
    let values = label_battle(&vec![true, false], true, Score::new(100).unwrap());
    assert_eq!(parts(values), vec![100, 65436]);
}

#[test]
fn player_changes_with_a_switching_move() {
    assert_eq!(next_to_move(true, true), false);
    assert_eq!(next_to_move(true, false), true);
    assert_eq!(next_to_move(false, true), true);
    assert_eq!(next_to_move(false, false), false);
}

#[test]
fn scores_stay_between_zero_and_one() {
    assert!(Score::new(65537).is_none());
    assert!(Score::new(u32::MAX).is_none());
    assert_eq!(Score::new(65536), Some(Score::one()));
    assert_eq!(Score::new(32768), Some(Score::half()));
    assert_eq!(Score::new(0), Some(Score::zero()));
    assert_eq!(Score::one().flip(), Score::zero());
    assert_eq!(Score::half().flip(), Score::half());
    assert_eq!(Score::new(3).unwrap().flip().parts(), 65533);
}
