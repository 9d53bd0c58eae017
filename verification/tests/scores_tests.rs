use unblocked::scores::{shorten_date, Score, ScoreVec, Scores, StoredScores};

fn blank() -> Score {
    Score::default()
}

#[test]
fn default_score_is_blank() {
    assert_eq!(
        blank(),
        Score { attempts: 0, wins: 0, hiscore: 0, first_win: 0, help_used: false }
    );
}

#[test]
fn new_scores_without_a_store_have_one_blank_level() {
    let sc = Scores::new(10, StoredScores::Missing);
    assert_eq!(sc.curr_level(), 1);
    assert_eq!(sc.max_avail_level(), 1);
    assert_eq!(sc.level_count(), 10);
    assert_eq!(sc.table().levels, vec![blank()]);
}

#[test]
fn unreadable_store_leaves_the_table_empty() {
    let sc = Scores::new(10, StoredScores::Unreadable);
    assert_eq!(sc.curr_level(), 1);
    assert!(sc.table().levels.is_empty());
    assert_eq!(sc.level_info(0), blank());
}

#[test]
fn stored_table_is_taken_over() {
    let won = Score { attempts: 3, wins: 1, hiscore: 8, first_win: 737_000, help_used: true };
    let stored = ScoreVec { max_level: 4, levels: vec![blank(), won] };
    let sc = Scores::new(10, StoredScores::Found(stored));
    assert_eq!(sc.curr_level(), 4);
    assert_eq!(sc.max_avail_level(), 4);
    assert_eq!(sc.level_info(1), won);
    assert_eq!(sc.level_info(2), blank());
    let sc = Scores::new(10, StoredScores::Found(ScoreVec { max_level: 2, levels: vec![] }));
    assert_eq!(sc.table().levels, vec![blank()]);
}

#[test]
fn first_win_sets_wins_date_and_hiscore() {
    let mut sc = Scores::new(10, StoredScores::Missing);
    sc.record_win(1, 7, 730_000);
    assert_eq!(
        sc.level_info(1),
        Score { attempts: 1, wins: 1, hiscore: 7, first_win: 730_000, help_used: false }
    );
    assert_eq!(sc.curr_level(), 2);
    assert_eq!(sc.max_avail_level(), 2);
}

#[test]
fn second_win_with_more_throws_keeps_the_hiscore() {
    let mut sc = Scores::new(10, StoredScores::Missing);
    sc.record_win(1, 7, 730_000);
    sc.record_win(1, 9, 730_005);
    assert_eq!(
        sc.level_info(1),
        Score { attempts: 2, wins: 2, hiscore: 7, first_win: 730_000, help_used: false }
    );
    sc.record_win(1, 7, 730_006);
    assert_eq!(sc.level_info(1).hiscore, 7);
    sc.record_win(1, 6, 730_007);
    assert_eq!(sc.level_info(1).hiscore, 6);
    assert_eq!(sc.level_info(1).wins, 4);
    assert_eq!(sc.level_info(1).first_win, 730_000);
}

#[test]
fn hiscore_is_capped() {
    let mut sc = Scores::new(10, StoredScores::Missing);
    sc.record_win(1, 1500, 730_000);
    assert_eq!(sc.level_info(1).hiscore, 999);
    sc.record_win(1, 999, 730_000);
    assert_eq!(sc.level_info(1).hiscore, 999);
    sc.record_win(1, 998, 730_000);
    assert_eq!(sc.level_info(1).hiscore, 998);
}

#[test]
fn win_on_the_last_level_keeps_the_current_level() {
    let mut sc = Scores::new(3, StoredScores::Missing);
    sc.record_win(1, 4, 730_000);
    assert_eq!((sc.curr_level(), sc.max_avail_level()), (2, 2));
    sc.record_win(2, 4, 730_000);
    assert_eq!((sc.curr_level(), sc.max_avail_level()), (2, 2));
    assert_eq!(sc.level_info(2).wins, 1);
}

#[test]
fn win_on_an_earlier_level_keeps_the_highest_level() {
    let stored = ScoreVec { max_level: 5, levels: vec![blank()] };
    let mut sc = Scores::new(10, StoredScores::Found(stored));
    sc.record_win(1, 4, 730_000);
    assert_eq!((sc.curr_level(), sc.max_avail_level()), (2, 5));
    assert_eq!(sc.table().levels.len(), 2);
}

#[test]
fn set_win_takes_the_day_from_the_clock() {
    let mut sc = Scores::new(10, StoredScores::Missing);
    sc.set_win(1, 5);
    let first = sc.level_info(1);
    assert_eq!((first.wins, first.attempts, first.hiscore), (1, 1, 5));
    assert!(first.first_win > 737_425);
    assert!(first.first_win < 1_000_000);
}

#[test]
fn set_fail_counts_an_attempt() {
    let mut sc = Scores::new(10, StoredScores::Missing);
    sc.set_fail(2);
    assert_eq!(sc.table().levels.len(), 3);
    assert_eq!(sc.level_info(2).attempts, 1);
    assert_eq!(sc.level_info(2).wins, 0);
    assert_eq!(sc.level_info(1), blank());
    assert_eq!(sc.curr_level(), 1);
    sc.set_fail(2);
    assert_eq!(sc.level_info(2).attempts, 2);
}

#[test]
fn help_marks_an_unsolved_level_only() {
    let mut sc = Scores::new(10, StoredScores::Missing);
    sc.set_fail(1);
    assert!(sc.set_help_used(1));
    assert!(sc.level_info(1).help_used);
    sc.record_win(2, 3, 730_000);
    assert!(!sc.set_help_used(2));
    assert!(!sc.level_info(2).help_used);
}

#[test]
fn current_level_goes_up_to_the_highest_available() {
    let stored = ScoreVec { max_level: 25, levels: vec![blank()] };
    let mut sc = Scores::new(57, StoredScores::Found(stored));
    assert_eq!(sc.dec_curr_level(10), 15);
    assert_eq!(sc.inc_curr_level(1), 16);
    assert_eq!(sc.inc_curr_level(8), 24);
    assert_eq!(sc.inc_curr_level(1), 25);
    assert_eq!(sc.inc_curr_level(1), 25);
    assert_eq!(sc.inc_curr_level(usize::MAX), 25);
    assert_eq!(sc.curr_level(), 25);
}

#[test]
fn current_level_goes_down_to_level_one() {
    let stored = ScoreVec { max_level: 25, levels: vec![blank()] };
    let mut sc = Scores::new(57, StoredScores::Found(stored));
    assert_eq!(sc.dec_curr_level(10), 15);
    assert_eq!(sc.dec_curr_level(10), 5);
    assert_eq!(sc.dec_curr_level(3), 2);
    // one above the step is not enough to make it
    assert_eq!(sc.dec_curr_level(1), 1);
    assert_eq!(sc.dec_curr_level(1), 1);
    assert_eq!(sc.dec_curr_level(usize::MAX), 1);
    let stored = ScoreVec { max_level: 0, levels: vec![blank()] };
    let mut sc = Scores::new(57, StoredScores::Found(stored));
    assert_eq!(sc.curr_level(), 0);
    assert_eq!(sc.dec_curr_level(1), 1);
}

#[test]
fn solved_on_gives_the_date_of_the_first_win() {
    let mut s = blank();
    assert_eq!(s.solved_on(), None);
    s.first_win = 730_000;
    assert_eq!(s.solved_on(), Some((99, 9, 3)));
    s.first_win = 737_425;
    assert_eq!(s.solved_on(), Some((20, 1, 1)));
    s.first_win = 1;
    assert_eq!(s.solved_on(), Some((1, 1, 1)));
    s.first_win = i32::MAX;
    assert_eq!(s.solved_on(), None);
    s.first_win = -5;
    assert_eq!(s.solved_on(), None);
}

#[test]
fn shorten_date_keeps_two_digits_of_the_year() {
    assert_eq!(shorten_date((2024, 2, 29)), (24, 2, 29));
    assert_eq!(shorten_date((1999, 12, 31)), (99, 12, 31));
    assert_eq!(shorten_date((5, 1, 1)), (5, 1, 1));
    assert_eq!(shorten_date((-1, 1, 1)), ((-1i32 as u32) % 100, 1, 1));
}

#[test]
fn set_win_leaves_other_levels_alone() {
    let mut sc = Scores::new(10, StoredScores::Missing);
    sc.set_fail(2);
    sc.set_win(1, 5);
    let day = sc.level_info(1).first_win;
    assert!(day > 0);
    assert!(sc.level_info(1).solved_on().is_some());
    assert_eq!(sc.level_info(2).attempts, 1);
    assert_eq!(sc.level_info(0), blank());
    assert_eq!(sc.level_info(3), blank());
    sc.set_win(1, 3);
    assert_eq!(sc.level_info(1).first_win, day);
    assert_eq!((sc.level_info(1).wins, sc.level_info(1).attempts), (2, 2));
    assert_eq!(sc.level_info(1).hiscore, 3);
}
