use bowling::BowlingGame;

fn sequential_same_record(game: &mut BowlingGame, score: i32, times: i32) {
    for _i in 0..times {
        game.new_shot(score).unwrap();
    }
}

fn game_of(shots: &[i32]) -> BowlingGame {
    let mut game = BowlingGame::new();
    for &pins in shots {
        game.new_shot(pins).unwrap();
    }
    game
}

#[test]
fn all_gutter() {
    let mut game = BowlingGame::new();
    sequential_same_record(&mut game, 0, 20);
    assert_eq!(game.calc_score(), 0);
}

#[test]
fn all_one_pin() {
    let mut game = BowlingGame::new();
    sequential_same_record(&mut game, 1, 20);
    assert_eq!(game.calc_score(), 20)
}

#[test]
fn spare() {
    let mut game = BowlingGame::new();
    game.new_shot(3).unwrap();
    game.new_shot(7).unwrap();
    game.new_shot(4).unwrap();
    assert_eq!(game.calc_score(), 18)
}

#[test]
fn spare_shift() {
    let mut game = BowlingGame::new();
    game.new_shot(2).unwrap();
    game.new_shot(5).unwrap();
    game.new_shot(5).unwrap();
    game.new_shot(1).unwrap();
    sequential_same_record(&mut game, 0, 16);
    assert_eq!(game.calc_score(), 13);
}

#[test]
fn strike() {
    let mut game = BowlingGame::new();
    game.new_shot(10).unwrap();
    game.new_shot(3).unwrap();
    game.new_shot(3).unwrap();
    game.new_shot(1).unwrap();
    sequential_same_record(&mut game, 0, 15);
    assert_eq!(game.calc_score(), 23)
}

#[test]
fn double() {
    let mut game = BowlingGame::new();
    game.new_shot(10).unwrap();
    game.new_shot(10).unwrap();
    game.new_shot(3).unwrap();
    game.new_shot(1).unwrap();
    sequential_same_record(&mut game, 0, 14);
    assert_eq!(game.calc_score(), 41)
}

#[test]
fn turkey() {
    let mut game = BowlingGame::new();
    game.new_shot(10).unwrap();
    game.new_shot(10).unwrap();
    game.new_shot(10).unwrap();
    game.new_shot(3).unwrap();
    game.new_shot(1).unwrap();
    sequential_same_record(&mut game, 0, 12);
    assert_eq!(game.calc_score(), 71);
}

#[test]
fn strike_and_spare() {
    let mut game = BowlingGame::new();
    game.new_shot(10).unwrap();
    game.new_shot(5).unwrap();
    game.new_shot(5).unwrap();
    game.new_shot(3).unwrap();
    sequential_same_record(&mut game, 0, 15);
    assert_eq!(game.calc_score(), 36);
}

#[test]
fn double_and_spare() {
    let mut game = BowlingGame::new();
    game.new_shot(10).unwrap();
    game.new_shot(10).unwrap();
    game.new_shot(5).unwrap();
    game.new_shot(5).unwrap();
    game.new_shot(3).unwrap();
    sequential_same_record(&mut game, 0, 13);
    assert_eq!(game.calc_score(), 61);
}

#[test]
fn new_game_scores_zero() {
    let game = BowlingGame::new();
    assert_eq!(game.calc_score(), 0);
    assert!(!game.is_over());
}

#[test]
fn spare_then_four_then_gutters() {
    let mut game = game_of(&[3, 7, 4]);
    sequential_same_record(&mut game, 0, 17);
    assert!(game.is_over());
    assert_eq!(game.calc_score(), 18);
}

#[test]
fn perfect_game() {
    let game = game_of(&[10; 12]);
    assert!(game.is_over());
    assert_eq!(game.calc_score(), 300);
}

#[test]
fn ten_strikes_without_bonus_balls() {
    let game = game_of(&[10; 10]);
    assert!(!game.is_over());
    assert_eq!(game.calc_score(), 270);
}

#[test]
fn eleven_strikes() {
    let game = game_of(&[10; 11]);
    assert!(!game.is_over());
    assert_eq!(game.calc_score(), 290);
}

#[test]
fn tenth_frame_spare_takes_one_bonus_ball() {
    let mut game = BowlingGame::new();
    sequential_same_record(&mut game, 0, 18);
    game.new_shot(5).unwrap();
    game.new_shot(5).unwrap();
    assert!(!game.is_over());
    assert_eq!(game.calc_score(), 10);
    game.new_shot(7).unwrap();
    assert!(game.is_over());
    assert_eq!(game.calc_score(), 17);
}

#[test]
fn tenth_frame_spare_with_strike_bonus() {
    let mut game = BowlingGame::new();
    sequential_same_record(&mut game, 0, 18);
    game.new_shot(4).unwrap();
    game.new_shot(6).unwrap();
    game.new_shot(10).unwrap();
    assert!(game.is_over());
    assert_eq!(game.calc_score(), 20);
    game.new_shot(10).unwrap();
    assert_eq!(game.calc_score(), 20);
}

#[test]
fn tenth_frame_strike_takes_two_bonus_balls() {
    let mut game = BowlingGame::new();
    sequential_same_record(&mut game, 0, 18);
    game.new_shot(10).unwrap();
    assert!(!game.is_over());
    game.new_shot(3).unwrap();
    assert!(!game.is_over());
    assert_eq!(game.calc_score(), 13);
    game.new_shot(4).unwrap();
    assert!(game.is_over());
    assert_eq!(game.calc_score(), 17);
}

#[test]
fn ninth_and_tenth_frame_strikes() {
    let mut game = BowlingGame::new();
    sequential_same_record(&mut game, 0, 16);
    sequential_same_record(&mut game, 10, 4);
    assert!(game.is_over());
    assert_eq!(game.calc_score(), 60);
}

#[test]
fn ninth_frame_spare_reads_the_tenth() {
    let mut game = BowlingGame::new();
    sequential_same_record(&mut game, 0, 16);
    game.new_shot(9).unwrap();
    game.new_shot(1).unwrap();
    game.new_shot(6).unwrap();
    game.new_shot(2).unwrap();
    assert!(game.is_over());
    assert_eq!(game.calc_score(), 24);
}

#[test]
fn open_tenth_frame_ends_the_game() {
    let mut game = BowlingGame::new();
    sequential_same_record(&mut game, 0, 18);
    game.new_shot(3).unwrap();
    assert!(!game.is_over());
    game.new_shot(6).unwrap();
    assert!(game.is_over());
    assert_eq!(game.calc_score(), 9);
}

#[test]
fn partial_game_scores_what_was_thrown() {
    let mut game = BowlingGame::new();
    game.new_shot(10).unwrap();
    assert_eq!(game.calc_score(), 10);
    game.new_shot(10).unwrap();
    assert_eq!(game.calc_score(), 30);
    game.new_shot(4).unwrap();
    assert_eq!(game.calc_score(), 42);
    game.new_shot(5).unwrap();
    assert_eq!(game.calc_score(), 52);
}

#[test]
fn all_nine_and_spare() {
    let game = game_of(&[9, 1, 9, 1, 9, 1, 9, 1, 9, 1, 9, 1, 9, 1, 9, 1, 9, 1, 9, 1, 9]);
    assert!(game.is_over());
    assert_eq!(game.calc_score(), 190);
}

#[test]
fn score_is_the_same_when_asked_again() {
    let game = game_of(&[10, 7, 3, 9, 0, 10, 0, 8, 8, 2, 0, 6]);
    let first = game.calc_score();
    let second = game.calc_score();
    let third = game.calc_score();
    assert_eq!(first, 90);
    assert_eq!(first, second);
    assert_eq!(second, third);
}

#[test]
fn score_never_drops_as_shots_arrive() {
    let shots = [10, 7, 3, 9, 0, 10, 0, 8, 8, 2, 0, 6, 10, 10, 10, 8, 1, 5, 5];
    let mut game = BowlingGame::new();
    let mut last = game.calc_score();
    for &pins in shots.iter() {
        game.new_shot(pins).unwrap();
        let now = game.calc_score();
        assert!(now >= last);
        last = now;
    }
    assert!(game.is_over());
    assert_eq!(last, 167);
}

#[test]
fn rejected_and_dropped_shots_leave_the_score() {
    let mut game = game_of(&[4]);
    let before = game.calc_score();
    assert!(game.new_shot(7).is_err());
    assert_eq!(game.calc_score(), before);
    assert!(game.new_shot(-3).is_err());
    assert_eq!(game.calc_score(), before);
}
