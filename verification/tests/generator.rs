use game_score::{
    generate_game, generate_stamp, generate_timeline, get_score, initial_stamp, next_stamp, Score,
    Stamp, OFFSET_MAX_STEP, PROBABILITY_HOME_SCORE, PROBABILITY_SCALE, PROBABILITY_SCORE_CHANGED,
    TIMESTAMPS_COUNT,
};

fn assert_walk(game: &[Stamp], max_step: i32) {
    assert_eq!(game[0], initial_stamp());
    for pair in game.windows(2) {
        let step = pair[1].offset - pair[0].offset;
        assert!(1 <= step && step <= max_step);
        let home_gain = pair[1].score.home - pair[0].score.home;
        let away_gain = pair[1].score.away - pair[0].score.away;
        assert!(home_gain >= 0);
        assert!(away_gain >= 0);
        assert!(home_gain + away_gain <= 1);
    }
}

#[test]
fn defaults_are_as_documented() {
    assert_eq!(TIMESTAMPS_COUNT, 50000);
    assert_eq!(OFFSET_MAX_STEP, 3);
    assert_eq!(PROBABILITY_SCALE, 1_000_000);
    assert_eq!(PROBABILITY_SCORE_CHANGED as f64 / PROBABILITY_SCALE as f64, 0.0001);
    assert_eq!(PROBABILITY_HOME_SCORE as f64 / PROBABILITY_SCALE as f64, 0.45);
}

#[test]
fn generated_game_is_a_walk() {
    let game = generate_game();
    assert_eq!(game.len(), TIMESTAMPS_COUNT + 1);
    assert_walk(&game, OFFSET_MAX_STEP);
    let last = game[game.len() - 1];
    assert!(last.offset >= 50000);
    assert!(last.offset <= 150000);
}

#[test]
fn generated_offsets_strictly_increase() {
    let game = generate_game();
    for pair in game.windows(2) {
        assert!(pair[0].offset < pair[1].offset);
        assert!(pair[0].score.home <= pair[1].score.home);
        assert!(pair[0].score.away <= pair[1].score.away);
    }
}

#[test]
fn offset_steps_are_drawn_not_fixed() {
    let game = generate_game();
    let steps: Vec<i32> = game.windows(2).map(|pair| pair[1].offset - pair[0].offset).collect();
    assert!(steps.iter().all(|step| 1 <= *step && *step <= 3));
    assert!(steps.iter().any(|step| *step != 3));
    assert!(steps.iter().any(|step| *step != 1));
}

#[test]
fn no_steps_gives_the_initial_snapshot_alone() {
    let mut rng = rand::thread_rng();
    let game = generate_timeline(&mut rng, 0, 100, 450000, 3);
    assert_eq!(game, vec![initial_stamp()]);
}

#[test]
fn max_step_of_one_advances_by_one() {
    let mut rng = rand::thread_rng();
    let game = generate_timeline(&mut rng, 100, 500000, 500000, 1);
    assert_eq!(game.len(), 101);
    assert_walk(&game, 1);
    for (index, stamp) in game.iter().enumerate() {
        assert_eq!(stamp.offset, index as i32);
    }
}

#[test]
fn score_never_changes_at_probability_zero() {
    let mut rng = rand::thread_rng();
    let game = generate_timeline(&mut rng, 1000, 0, 450000, 3);
    assert_eq!(game.len(), 1001);
    assert_walk(&game, 3);
    for stamp in game.iter() {
        assert_eq!(stamp.score, Score { home: 0, away: 0 });
    }
}

#[test]
fn home_takes_every_step_when_both_draws_are_certain() {
    let mut rng = rand::thread_rng();
    let game = generate_timeline(&mut rng, 1000, PROBABILITY_SCALE, PROBABILITY_SCALE, 3);
    assert_walk(&game, 3);
    for (index, stamp) in game.iter().enumerate() {
        assert_eq!(stamp.score, Score { home: index as i32, away: 0 });
    }
}

#[test]
fn away_takes_every_step_when_home_is_impossible() {
    let mut rng = rand::thread_rng();
    let game = generate_timeline(&mut rng, 1000, PROBABILITY_SCALE, 0, 3);
    assert_walk(&game, 3);
    for (index, stamp) in game.iter().enumerate() {
        assert_eq!(stamp.score, Score { home: 0, away: index as i32 });
    }
}

#[test]
fn every_step_scores_when_change_is_certain() {
    let mut rng = rand::thread_rng();
    let game = generate_timeline(&mut rng, 2000, PROBABILITY_SCALE, 500000, 5);
    assert_walk(&game, 5);
    for (index, stamp) in game.iter().enumerate() {
        assert_eq!(stamp.score.home + stamp.score.away, index as i32);
    }
    let last = game[game.len() - 1];
    assert!(last.score.home > 0);
    assert!(last.score.away > 0);
}

#[test]
fn generated_timeline_answers_queries() {
    let mut rng = rand::thread_rng();
    let game = generate_timeline(&mut rng, 500, PROBABILITY_SCALE, 500000, 4);
    assert_eq!(get_score(&game, 0), (0, 0));
    for stamp in game.iter() {
        assert_eq!(get_score(&game, stamp.offset), (stamp.score.home, stamp.score.away));
    }
    for pair in game.windows(2) {
        for offset in pair[0].offset..pair[1].offset {
            assert_eq!(get_score(&game, offset), (pair[0].score.home, pair[0].score.away));
        }
    }
    let last = game[game.len() - 1];
    assert_eq!(get_score(&game, last.offset + 1), (last.score.home, last.score.away));
    assert_eq!(get_score(&game, i32::MAX), (last.score.home, last.score.away));
    assert_eq!(get_score(&game, -1), (-1, -1));
}

#[test]
fn generate_stamp_takes_one_step() {
    let mut rng = rand::thread_rng();
    let previous = Stamp { offset: 40, score: Score { home: 2, away: 5 } };
    for _ in 0..200 {
        let next = generate_stamp(&mut rng, previous, 500000, 500000, 3);
        let step = next.offset - previous.offset;
        assert!(1 <= step && step <= 3);
        let home_gain = next.score.home - 2;
        let away_gain = next.score.away - 5;
        assert!(home_gain >= 0 && away_gain >= 0 && home_gain + away_gain <= 1);
    }
}

#[test]
fn generate_stamp_with_certain_draws() {
    let mut rng = rand::thread_rng();
    let previous = Stamp { offset: 40, score: Score { home: 2, away: 5 } };
    for _ in 0..50 {
        let still = generate_stamp(&mut rng, previous, 0, PROBABILITY_SCALE, 1);
        assert_eq!(still, Stamp { offset: 41, score: Score { home: 2, away: 5 } });
        let home = generate_stamp(&mut rng, previous, PROBABILITY_SCALE, PROBABILITY_SCALE, 1);
        assert_eq!(home, Stamp { offset: 41, score: Score { home: 3, away: 5 } });
        let away = generate_stamp(&mut rng, previous, PROBABILITY_SCALE, 0, 1);
        assert_eq!(away, Stamp { offset: 41, score: Score { home: 2, away: 6 } });
    }
}

#[test]
fn next_stamp_applies_the_draws() {
    let previous = Stamp { offset: 7, score: Score { home: 1, away: 2 } };
    assert_eq!(
        next_stamp(previous, true, true, 3),
        Stamp { offset: 10, score: Score { home: 2, away: 2 } }
    );
    assert_eq!(
        next_stamp(previous, true, false, 2),
        Stamp { offset: 9, score: Score { home: 1, away: 3 } }
    );
    assert_eq!(
        next_stamp(previous, false, true, 1),
        Stamp { offset: 8, score: Score { home: 1, away: 2 } }
    );
    assert_eq!(
        next_stamp(previous, false, false, 1),
        Stamp { offset: 8, score: Score { home: 1, away: 2 } }
    );
}

#[test]
fn next_stamp_at_the_edge_of_the_range() {
    let previous = Stamp { offset: i32::MAX - 3, score: Score { home: i32::MAX - 1, away: i32::MAX } };
    assert_eq!(
        next_stamp(previous, true, true, 3),
        Stamp { offset: i32::MAX, score: Score { home: i32::MAX, away: i32::MAX } }
    );
    assert_eq!(
        next_stamp(initial_stamp(), false, false, 1),
        Stamp { offset: 1, score: Score { home: 0, away: 0 } }
    );
}
