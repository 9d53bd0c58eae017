use unblocked::brick::Point;
use unblocked::consts::{BRICK_SIZE, CELLS, FLOOR_ROW, HEIGHT, HOME_COL, WIDTH};
use unblocked::field::{brick2shift, pos2puz, rate, BrickKind, GameField, GameState, Rating};
use unblocked::loader::Loader;
use unblocked::scenes::Transition;
use unblocked::scores::{Scores, StoredScores};

// level 0 and level 2 are solved by two throws along the floor;
// level 1 leaves no move after two throws
const LEVELS: &str = "# demo\nstart:S\nSS\nSS\n# one\nstart:X\nSX\nSX\n# two\nstart:S\nSS\nSS\n";

fn field_on(level: usize) -> (GameField, Scores) {
    let loader = Loader::new(LEVELS).unwrap();
    let scores = Scores::new(loader.level_count(), StoredScores::Missing);
    let mut field = GameField::new(loader, &scores, false);
    field.level = level;
    field.load(&scores, level);
    (field, scores)
}

fn run(field: &mut GameField, ticks: usize) {
    for _ in 0..ticks {
        field.tick();
    }
}

fn cells(field: &GameField) -> Vec<(usize, usize, BrickKind)> {
    field.bricks.iter().map(|b| (b.x, b.y, b.kind)).collect()
}

#[test]
fn pos2puz_counts_row_by_row() {
    assert_eq!(pos2puz(0, 0), 0);
    assert_eq!(pos2puz(20, 0), 20);
    assert_eq!(pos2puz(0, 1), 21);
    assert_eq!(pos2puz(3, 2), 45);
    assert_eq!(pos2puz(WIDTH - 1, HEIGHT - 1), CELLS - 1);
}

#[test]
fn new_field_is_blank() {
    let loader = Loader::new(LEVELS).unwrap();
    let scores = Scores::new(3, StoredScores::Missing);
    let field = GameField::new(loader, &scores, true);
    assert_eq!(field.level, 1);
    assert_eq!(field.state, GameState::Unfinished);
    assert!(field.demoing);
    assert!(field.bricks.is_empty());
    assert_eq!(field.puzzle, vec![0u32; CELLS]);
    assert_eq!((field.player.x, field.player.y), (HOME_COL, FLOOR_ROW));
    assert_eq!(field.player.kind, BrickKind::Joker);
    assert_eq!(field.score, 0);
    assert_eq!(field.first_brick, BrickKind::Empty);
}

#[test]
fn load_draws_the_frame_and_the_diagonal_corner() {
    let (field, _) = field_on(1);
    for x in 0..WIDTH {
        assert_eq!(field.puzzle[pos2puz(x, 0)], 1);
        assert_eq!(field.puzzle[pos2puz(x, HEIGHT - 1)], 1);
    }
    for y in 1..HEIGHT - 1 {
        assert_eq!(field.puzzle[pos2puz(0, y)], 1);
        for x in 1..WIDTH {
            let corner = y <= 7 && x <= 7 - y;
            let panel = x >= 16;
            let expected = if corner || panel { 1 } else { 0 };
            assert_eq!(field.puzzle[pos2puz(x, y)], expected, "cell {} {}", x, y);
        }
    }
}

#[test]
fn load_draws_the_corner_of_the_level() {
    let loader = Loader::new("start:S\n***\n*\n\nSS\nSS\n").unwrap();
    let scores = Scores::new(1, StoredScores::Missing);
    let mut field = GameField::new(loader, &scores, false);
    field.load(&scores, 0);
    for y in 1..HEIGHT - 1 {
        for x in 1..16 {
            let wall = (y == 1 && x <= 3) || (y == 2 && x <= 1);
            assert_eq!(field.puzzle[pos2puz(x, y)], if wall { 1 } else { 0 });
        }
    }
}

#[test]
fn load_puts_the_puzzle_on_the_floor() {
    let (field, _) = field_on(1);
    assert_eq!(
        cells(&field),
        vec![
            (1, 13, BrickKind::K1),
            (2, 13, BrickKind::K2),
            (1, 14, BrickKind::K1),
            (2, 14, BrickKind::K2),
        ]
    );
    for b in field.bricks.iter() {
        assert!(!b.is_moving());
        assert_eq!(b.scr_pos, Point { x: b.x as i64 * BRICK_SIZE, y: b.y as i64 * BRICK_SIZE });
    }
    assert_eq!((field.player.x, field.player.y), (HOME_COL, FLOOR_ROW));
    assert_eq!(field.player.kind, BrickKind::K2);
    assert_eq!(field.state, GameState::Unfinished);
}

#[test]
fn load_skips_empty_cells() {
    let loader = Loader::new(".S\nSS\n").unwrap();
    let scores = Scores::new(1, StoredScores::Missing);
    let mut field = GameField::new(loader, &scores, false);
    field.load(&scores, 0);
    assert_eq!(
        cells(&field),
        vec![(2, 13, BrickKind::K1), (1, 14, BrickKind::K1), (2, 14, BrickKind::K1)]
    );
}

#[test]
fn load_sets_the_arrow() {
    let (field, _) = field_on(1);
    assert_eq!(field.first_brick, BrickKind::K2);
    assert!(!field.arrow_down);
    assert_eq!(field.arrow_pos, Point { x: 4 * BRICK_SIZE, y: 14 * BRICK_SIZE });
}

#[test]
fn target_in_a_row_with_bricks_is_sideways() {
    let (field, _) = field_on(1);
    assert_eq!(field.target(14), (false, 3, 14, BrickKind::K2));
    assert_eq!(field.target(13), (false, 3, 13, BrickKind::K2));
}

#[test]
fn target_in_an_empty_low_row_drops_in_the_first_column() {
    let (field, _) = field_on(1);
    assert_eq!(field.target(12), (true, 1, 12, BrickKind::K1));
    assert_eq!(field.target(8), (true, 1, 12, BrickKind::K1));
}

#[test]
fn target_in_a_high_row_drops_next_to_the_corner() {
    let (field, _) = field_on(1);
    // row 6 has one corner cell: the drop is in column 2, onto the brick
    assert_eq!(field.target(6), (true, 2, 12, BrickKind::K2));
    // row 5 has two: the drop is in column 3, to the floor
    assert_eq!(field.target(5), (true, 3, 14, BrickKind::Empty));
    assert_eq!(field.target(1), (true, 7, 14, BrickKind::Empty));
    assert_eq!(field.target(7), (true, 1, 12, BrickKind::K1));
}

#[test]
fn can_throw_needs_a_matching_first_brick() {
    let (mut field, _) = field_on(1);
    assert!(field.can_throw());
    field.player.kind = BrickKind::K1;
    assert!(!field.can_throw());
    field.player.kind = BrickKind::Joker;
    assert!(field.can_throw());
    field.player.kind = BrickKind::K2;
    field.state = GameState::Looser;
    assert!(!field.can_throw());
    field.state = GameState::Unfinished;
    // row 5 aims at the floor: no brick in the path
    field.player.y = 5;
    field.player.scr_pos = Point { x: 15 * BRICK_SIZE, y: 5 * BRICK_SIZE };
    assert!(!field.can_throw());
}

#[test]
fn throw_that_is_not_allowed_changes_nothing() {
    let (mut field, _) = field_on(1);
    field.player.kind = BrickKind::K1;
    field.score = u32::MAX;
    let before = (field.score, field.player, field.player_row, field.state, cells(&field));
    field.throw_brick();
    assert_eq!((field.score, field.player, field.player_row, field.state, cells(&field)), before);
    field.player.kind = BrickKind::K2;
    field.state = GameState::Winner;
    let before = (field.score, field.player, field.player_row, field.state, cells(&field));
    field.throw_brick();
    assert_eq!((field.score, field.player, field.player_row, field.state, cells(&field)), before);
}

#[test]
fn throw_sets_out_for_the_cell_beside_the_rightmost_brick() {
    let (mut field, _) = field_on(1);
    field.throw_brick();
    assert_eq!(field.score, 1);
    assert_eq!(field.player_row, 14);
    assert!(field.player.is_moving());
    assert_eq!(field.player.vel, Point { x: -BRICK_SIZE, y: 0 });
    assert_eq!(field.player.limit, Point { x: 3 * BRICK_SIZE, y: 14 * BRICK_SIZE });
    assert!(!field.can_throw());
}

#[test]
fn throw_moves_nothing_while_the_brick_flies() {
    let (mut field, _) = field_on(1);
    field.throw_brick();
    run(&mut field, 11);
    assert_eq!(field.bricks.len(), 4);
    assert!(field.player.is_moving());
    assert_eq!(field.player.scr_pos, Point { x: 4 * BRICK_SIZE, y: 14 * BRICK_SIZE });
}

#[test]
fn matching_brick_is_annihilated_and_the_column_falls() {
    let (mut field, _) = field_on(1);
    field.throw_brick();
    run(&mut field, 12);
    // the brick at (2, 14) is gone, the one above it falls
    assert_eq!(
        cells(&field),
        vec![(1, 13, BrickKind::K1), (2, 13, BrickKind::K2), (1, 14, BrickKind::K1)]
    );
    assert!(!field.bricks[0].is_moving());
    assert!(field.bricks[1].is_moving());
    assert_eq!(field.bricks[1].limit, Point { x: 2 * BRICK_SIZE, y: 14 * BRICK_SIZE });
    assert!(!field.bricks[2].is_moving());
    // the player's brick goes on to the left
    assert_eq!((field.player.x, field.player.y), (3, 14));
    assert_eq!(field.player.kind, BrickKind::K2);
    assert_eq!(field.player.limit, Point { x: 2 * BRICK_SIZE, y: 14 * BRICK_SIZE });
    assert!(!field.going_back);
}

#[test]
fn other_brick_gives_its_kind_and_stays() {
    let (mut field, _) = field_on(1);
    field.throw_brick();
    run(&mut field, 13);
    assert_eq!(field.bricks.len(), 3);
    assert_eq!(field.player.kind, BrickKind::K1);
    assert_eq!((field.player.x, field.player.y), (2, 14));
    assert_eq!(field.player.limit, Point { x: BRICK_SIZE, y: 14 * BRICK_SIZE });
    assert!(!field.going_back);
}

#[test]
fn wall_on_the_floor_sends_the_brick_home() {
    let (mut field, _) = field_on(1);
    field.throw_brick();
    run(&mut field, 14);
    assert!(field.going_back);
    assert!(!field.is_interactive());
    assert_eq!(field.player.vel, Point { x: BRICK_SIZE, y: 0 });
    assert_eq!(field.player.limit, Point { x: 15 * BRICK_SIZE, y: 14 * BRICK_SIZE });
    run(&mut field, 1);
    // the brick that fell has landed
    assert_eq!((field.bricks[1].x, field.bricks[1].y), (2, 14));
    assert!(!field.bricks[1].is_moving());
    run(&mut field, 12);
    assert!(field.going_back);
    run(&mut field, 1);
    assert!(!field.going_back);
    assert!(field.is_interactive());
    assert!(!field.player.is_moving());
    assert_eq!((field.player.x, field.player.y), (15, 14));
    assert_eq!(field.state, GameState::Unfinished);
    assert_eq!(field.first_brick, BrickKind::K2);
    assert_eq!(field.score, 1);
}

#[test]
fn wall_above_the_floor_makes_the_brick_drop() {
    let (mut field, _) = field_on(1);
    run_first_throw(&mut field);
    field.player_up();
    assert_eq!(field.first_brick, BrickKind::K1);
    assert_eq!(field.arrow_pos, Point { x: 3 * BRICK_SIZE, y: 13 * BRICK_SIZE });
    field.throw_brick();
    assert_eq!(field.score, 2);
    run(&mut field, 13);
    // the brick at (1, 13) is gone
    assert_eq!(cells(&field), vec![(2, 14, BrickKind::K2), (1, 14, BrickKind::K1)]);
    run(&mut field, 1);
    // at the wall the brick below matches: it is gone, and the player drops
    assert_eq!(cells(&field), vec![(2, 14, BrickKind::K2)]);
    assert!(field.player.is_moving_down());
    assert_eq!(field.player.limit, Point { x: BRICK_SIZE, y: 14 * BRICK_SIZE });
    run(&mut field, 1);
    assert!(field.going_back);
    assert_eq!(field.player.vel, Point { x: BRICK_SIZE, y: -3429 });
    assert_eq!(field.player.limit, Point { x: 15 * BRICK_SIZE, y: 13 * BRICK_SIZE });
    run(&mut field, 14);
    assert!(!field.going_back);
    assert_eq!((field.player.x, field.player.y), (15, 13));
    assert_eq!(
        field.player.scr_pos,
        Point { x: 15 * BRICK_SIZE, y: 13 * BRICK_SIZE }
    );
    // a K1 in hand and only a K2 on the board
    assert_eq!(field.state, GameState::Looser);
}

fn run_first_throw(field: &mut GameField) {
    field.throw_brick();
    run(field, 28);
}

#[test]
fn brick_at_the_wall_looks_below() {
    let (mut field, _) = field_on(1);
    // from row 12 the brick drops in column 1 onto the K1 at (1, 13)
    field.player_up();
    field.player_up();
    field.player.kind = BrickKind::K1;
    assert_eq!(field.target(12), (true, 1, 12, BrickKind::K1));
    assert!(field.can_throw());
    field.throw_brick();
    assert_eq!(field.player.limit, Point { x: BRICK_SIZE, y: 12 * BRICK_SIZE });
    run(&mut field, 14);
    // stopped at the wall, the brick below matches: it is gone
    assert_eq!(
        cells(&field),
        vec![(2, 13, BrickKind::K2), (1, 14, BrickKind::K1), (2, 14, BrickKind::K2)]
    );
    assert!(field.player.is_moving_down());
    assert!(!field.going_back);
}

#[test]
fn falling_brick_passes_a_brick_of_another_kind() {
    let (mut field, _) = field_on(1);
    field.player.y = 6;
    field.player.scr_pos = Point { x: 15 * BRICK_SIZE, y: 6 * BRICK_SIZE };
    field.player.kind = BrickKind::Joker;
    field.throw_brick();
    run(&mut field, 13);
    field.player.kind = BrickKind::K1;
    run(&mut field, 6);
    // above the K2 at (2, 13): the kinds differ, the player takes the kind and falls on
    assert_eq!((field.player.x, field.player.y), (2, 12));
    assert_eq!(field.player.kind, BrickKind::K2);
    assert_eq!(field.bricks.len(), 4);
    assert!(field.player.is_moving_down());
    assert!(!field.going_back);
    run(&mut field, 1);
    // now the brick below matches: it is gone, what stood above it falls
    assert_eq!((field.player.x, field.player.y), (2, 13));
    assert_eq!(
        cells(&field),
        vec![(1, 13, BrickKind::K1), (2, 13, BrickKind::K2), (1, 14, BrickKind::K1)]
    );
    assert!(field.bricks[1].is_moving());
    assert!(field.going_back);
}

#[test]
fn falling_brick_takes_the_kind_of_what_it_lands_on() {
    let (mut field, _) = field_on(1);
    // a joker dropped in column 2 from row 6 lands on the K2 at (2, 13)
    field.player.y = 6;
    field.player.scr_pos = Point { x: 15 * BRICK_SIZE, y: 6 * BRICK_SIZE };
    field.player.kind = BrickKind::Joker;
    assert!(field.can_throw());
    field.throw_brick();
    assert_eq!(field.player.limit, Point { x: 2 * BRICK_SIZE, y: 6 * BRICK_SIZE });
    run(&mut field, 13);
    // arrived beside the corner: wall at the left, nothing below, so it drops
    assert!(field.player.is_moving_down());
    assert_eq!(field.bricks.len(), 4);
    run(&mut field, 6);
    assert_eq!((field.player.x, field.player.y), (2, 12));
    // the joker absorbs the brick below, takes its kind and goes home
    assert_eq!(field.player.kind, BrickKind::K2);
    assert_eq!(
        cells(&field),
        vec![(1, 13, BrickKind::K1), (1, 14, BrickKind::K1), (2, 14, BrickKind::K2)]
    );
    assert!(field.going_back);
    assert_eq!(field.player.limit, Point { x: 15 * BRICK_SIZE, y: 6 * BRICK_SIZE });
}

#[test]
fn player_moves_between_the_borders_only() {
    let (mut field, _) = field_on(1);
    field.player_down();
    assert_eq!(field.player.y, 14);
    for row in (1..14).rev() {
        field.player_up();
        assert_eq!(field.player.y, row);
        assert_eq!(field.player.scr_pos, Point { x: 15 * BRICK_SIZE, y: row as i64 * BRICK_SIZE });
    }
    field.player_up();
    assert_eq!(field.player.y, 1);
    field.player_down();
    assert_eq!(field.player.y, 2);
    assert!(field.arrow_down);
    assert_eq!(field.arrow_pos, Point { x: 6 * BRICK_SIZE, y: 14 * BRICK_SIZE });
}

#[test]
fn player_does_not_move_while_flying() {
    let (mut field, _) = field_on(1);
    field.throw_brick();
    field.tick();
    let before = field.player;
    field.player_up();
    field.player_down();
    assert_eq!(field.player, before);
}

#[test]
fn calc_state_of_an_empty_board_on_the_last_level_is_completed() {
    let (mut field, _) = field_on(2);
    field.bricks.clear();
    assert_eq!(field.calc_state(), GameState::Completed);
}

#[test]
fn calc_state_of_an_empty_board_is_winner() {
    let (mut field, _) = field_on(1);
    field.bricks.clear();
    assert_eq!(field.calc_state(), GameState::Winner);
    field.level = 0;
    assert_eq!(field.calc_state(), GameState::Winner);
}

#[test]
fn calc_state_with_a_joker_is_unfinished() {
    let (mut field, _) = field_on(1);
    field.player.kind = BrickKind::Joker;
    assert_eq!(field.calc_state(), GameState::Unfinished);
}

#[test]
fn calc_state_without_a_matching_row_is_looser() {
    let (mut field, _) = field_on(1);
    assert_eq!(field.calc_state(), GameState::Unfinished);
    field.player.kind = BrickKind::K3;
    assert_eq!(field.calc_state(), GameState::Looser);
}

#[test]
fn two_throws_clear_a_level() {
    let (mut field, _) = field_on(0);
    field.throw_brick();
    run(&mut field, 28);
    assert_eq!(cells(&field), vec![(1, 14, BrickKind::K1), (2, 14, BrickKind::K1)]);
    assert_eq!(field.state, GameState::Unfinished);
    field.throw_brick();
    run(&mut field, 28);
    assert!(field.bricks.is_empty());
    assert_eq!(field.state, GameState::Winner);
    assert_eq!(field.score, 2);
}

#[test]
fn last_level_cleared_completes_the_game() {
    let (mut field, _) = field_on(2);
    field.throw_brick();
    run(&mut field, 28);
    field.throw_brick();
    run(&mut field, 28);
    assert_eq!(field.state, GameState::Completed);
}

#[test]
fn update_waits_for_the_player_to_confirm() {
    let (mut field, mut scores) = field_on(1);
    field.player.kind = BrickKind::K3;
    field.state = GameState::Looser;
    assert_eq!(field.update_on(false, &mut scores, 700_000), Transition::Stay);
    assert_eq!(field.state, GameState::Looser);
    assert_eq!(scores.level_info(1).attempts, 0);
}

#[test]
fn update_enters_a_failure_and_starts_over() {
    let (mut field, mut scores) = field_on(1);
    field.throw_brick();
    run(&mut field, 28);
    field.state = GameState::Looser;
    assert!(field.records(true));
    assert_eq!(field.update_on(true, &mut scores, 700_000), Transition::Stay);
    assert_eq!(scores.level_info(1).attempts, 1);
    assert_eq!(scores.level_info(1).wins, 0);
    assert_eq!(field.state, GameState::Unfinished);
    assert_eq!(field.score, 0);
    assert_eq!(field.level, 1);
    assert_eq!(field.bricks.len(), 4);
    assert_eq!(field.lvl_score.attempts, 1);
}

#[test]
fn update_enters_a_win_and_goes_to_the_next_level() {
    let (mut field, mut scores) = field_on(1);
    field.bricks.clear();
    field.state = GameState::Winner;
    field.score = 5;
    assert_eq!(field.update_on(true, &mut scores, 700_000), Transition::Stay);
    let won = scores.level_info(1);
    assert_eq!((won.attempts, won.wins, won.hiscore, won.first_win), (1, 1, 5, 700_000));
    assert_eq!(scores.curr_level(), 2);
    assert_eq!(scores.max_avail_level(), 2);
    assert_eq!(field.level, 2);
    assert_eq!(field.score, 0);
    assert_eq!(field.state, GameState::Unfinished);
    assert_eq!(field.player.kind, BrickKind::K1);
    assert_eq!(field.bricks.len(), 4);
}

#[test]
fn update_of_a_completed_game_ends_the_scene() {
    let (mut field, mut scores) = field_on(2);
    field.bricks.clear();
    field.state = GameState::Completed;
    field.score = 9;
    assert_eq!(field.update_on(true, &mut scores, 700_001), Transition::Pop);
    assert_eq!(scores.level_info(2).wins, 1);
    assert_eq!(scores.level_info(2).hiscore, 9);
    assert_eq!(scores.curr_level(), 1);
    assert_eq!(field.level, 2);
}

#[test]
fn update_of_a_replay_enters_no_win() {
    let (mut field, mut scores) = field_on(1);
    field.demoing = true;
    field.bricks.clear();
    field.state = GameState::Winner;
    assert!(!field.records(true));
    assert_eq!(field.update_on(true, &mut scores, 700_000), Transition::Stay);
    assert_eq!(scores.level_info(1).wins, 0);
    assert_eq!(field.level, 1);
    assert_eq!(field.state, GameState::Winner);
}

#[test]
fn update_takes_the_day_from_the_clock() {
    let (mut field, mut scores) = field_on(1);
    field.bricks.clear();
    field.state = GameState::Winner;
    field.score = 4;
    assert_eq!(field.update(true, &mut scores), Transition::Stay);
    // later than the first day of 2020
    assert!(scores.level_info(1).first_win > 737_425);
    assert_eq!(scores.level_info(1).hiscore, 4);
}

#[test]
fn rate_compares_with_the_record() {
    assert_eq!(rate(1, 3), Rating::Better);
    assert_eq!(rate(1, 4), Rating::Even);
    assert_eq!(rate(1, 5), Rating::Worse);
    assert_eq!(rate(10, 10), Rating::Even);
    assert_eq!(rate(56, 11), Rating::Better);
    assert_eq!(rate(0, 1), Rating::Even);
    assert_eq!(rate(57, 1), Rating::Even);
}

#[test]
fn describe_names_states_and_kinds() {
    assert_eq!(GameState::Unfinished.describe(), "playing...");
    assert_eq!(GameState::Winner.describe(), "level solved");
    assert_eq!(GameState::Looser.describe(), "level failed");
    assert_eq!(GameState::Completed.describe(), "game completed");
    assert_eq!(BrickKind::K1.describe(), "'S'");
    assert_eq!(BrickKind::K6.describe(), "'W'");
    assert_eq!(BrickKind::Joker.describe(), "'?'");
    assert_eq!(BrickKind::Empty.describe(), "???");
}

#[test]
fn brick2shift_steps_by_the_height_of_a_brick() {
    assert_eq!(brick2shift(BrickKind::Empty), 0);
    assert_eq!(brick2shift(BrickKind::K1), 48);
    assert_eq!(brick2shift(BrickKind::K2), 96);
    assert_eq!(brick2shift(BrickKind::K3), 144);
    assert_eq!(brick2shift(BrickKind::K4), 192);
    assert_eq!(brick2shift(BrickKind::K5), 240);
    assert_eq!(brick2shift(BrickKind::K6), 288);
    assert_eq!(brick2shift(BrickKind::Joker), 336);
}

#[test]
fn aim_matches_goes_by_the_arrow() {
    let (mut field, _) = field_on(1);
    assert!(field.aim_matches());
    field.player.kind = BrickKind::K1;
    assert!(!field.aim_matches());
    field.player.kind = BrickKind::Joker;
    assert!(field.aim_matches());
}

#[test]
fn resting_bricks_stand_exactly_on_their_cells() {
    let (mut field, _) = field_on(1);
    field.throw_brick();
    for _ in 0..40 {
        field.tick();
        let player = field.player;
        for b in field.bricks.iter().chain(std::iter::once(&player)) {
            if !b.is_moving() {
                assert_eq!(b.scr_pos.x, b.x as i64 * BRICK_SIZE);
                assert_eq!(b.scr_pos.y, b.y as i64 * BRICK_SIZE);
                assert_eq!(b.scr_pos.x % BRICK_SIZE, 0);
                assert_eq!(b.scr_pos.y % BRICK_SIZE, 0);
            }
        }
    }
}

#[test]
fn loaded_bricks_share_no_cell() {
    let loader = Loader::new("SXOTZWS\nXOTZWSX\nOTZWSXO\nTZWSXOT\nZWSXOTZ\nWSXOTZW\nSXOTZWS\n").unwrap();
    let scores = Scores::new(1, StoredScores::Missing);
    let mut field = GameField::new(loader, &scores, false);
    field.load(&scores, 0);
    assert_eq!(field.bricks.len(), 49);
    let mut seen = cells(&field).iter().map(|c| (c.0, c.1)).collect::<Vec<_>>();
    seen.sort();
    seen.dedup();
    assert_eq!(seen.len(), 49);
    assert!(field.bricks.iter().all(|b| (1..=7).contains(&b.x) && (8..=14).contains(&b.y)));
}

#[test]
fn throw_stops_where_the_arrow_points() {
    let (mut field, _) = field_on(1);
    for _ in 0..14 {
        let (down, x, y, _) = field.target(field.player.y);
        let mut probe = GameField::new(Loader::new(LEVELS).unwrap(), &Scores::new(3, StoredScores::Missing), false);
        probe.level = 1;
        probe.load(&Scores::new(3, StoredScores::Missing), 1);
        probe.player = field.player;
        probe.player.kind = BrickKind::Joker;
        probe.throw_brick();
        if probe.player.is_moving() {
            assert_eq!(probe.player.limit.x, x as i64 * BRICK_SIZE);
            if !down {
                assert_eq!(probe.player.limit.y, y as i64 * BRICK_SIZE);
            }
        }
        field.player_up();
    }
}

#[test]
fn bricks_stay_apart_and_above_the_border() {
    for level in 0..3 {
        let (mut field, _) = field_on(level);
        for round in 0..6 {
            field.player.kind = BrickKind::Joker;
            field.state = GameState::Unfinished;
            for _ in 0..(round % 3) {
                if !field.player.is_moving() {
                    field.player_up();
                }
            }
            field.throw_brick();
            for _ in 0..40 {
                field.tick();
                let mut seen: Vec<(usize, usize)> = field.bricks.iter().map(|b| (b.x, b.y)).collect();
                seen.sort();
                seen.dedup();
                assert_eq!(seen.len(), field.bricks.len());
                for b in field.bricks.iter() {
                    assert!(b.y <= FLOOR_ROW && b.y >= 8);
                    assert!(b.scr_pos.y <= FLOOR_ROW as i64 * BRICK_SIZE);
                    assert_eq!(b.scr_pos.x, b.x as i64 * BRICK_SIZE);
                    if b.is_moving() {
                        assert_eq!(b.vel, Point { x: 0, y: 16_000 });
                        assert!(b.limit.y <= FLOOR_ROW as i64 * BRICK_SIZE);
                    }
                }
            }
        }
    }
}

#[test]
fn load_sets_a_level_up_whatever_the_board_does() {
    let (mut field, scores) = field_on(1);
    field.throw_brick();
    run(&mut field, 14);
    assert!(field.going_back);
    assert!(field.player.is_moving());
    field.score = 9;
    field.load(&scores, 2);
    assert!(!field.going_back);
    assert!(field.is_interactive());
    assert_eq!(field.state, GameState::Unfinished);
    assert!(!field.player.is_moving());
    assert_eq!((field.player.x, field.player.y), (HOME_COL, FLOOR_ROW));
    assert_eq!(field.player.kind, BrickKind::K1);
    assert_eq!(
        cells(&field),
        vec![
            (1, 13, BrickKind::K1),
            (2, 13, BrickKind::K1),
            (1, 14, BrickKind::K1),
            (2, 14, BrickKind::K1),
        ]
    );
    assert!(field.bricks.iter().all(|b| !b.is_moving()));
    assert_eq!(field.first_brick, BrickKind::K1);
    assert_eq!(field.score, 9);
    assert_eq!(field.level, 1);
    for x in 0..WIDTH {
        assert_eq!(field.puzzle[pos2puz(x, 0)], 1);
        assert_eq!(field.puzzle[pos2puz(x, HEIGHT - 1)], 1);
    }
    for y in 0..HEIGHT {
        assert_eq!(field.puzzle[pos2puz(0, y)], 1);
        for x in 16..WIDTH {
            assert_eq!(field.puzzle[pos2puz(x, y)], 1);
        }
    }
    // a throw works again
    field.throw_brick();
    assert_eq!(field.score, 10);
}

#[test]
fn load_wipes_the_corner_of_the_level_before() {
    let loader = Loader::new("start:S\n*******\n*******\n\nSS\nSS\n# two\nSS\nSS\n").unwrap();
    let scores = Scores::new(2, StoredScores::Missing);
    let mut field = GameField::new(loader, &scores, false);
    field.load(&scores, 0);
    assert_eq!(field.puzzle[pos2puz(7, 1)], 1);
    assert_eq!(field.puzzle[pos2puz(7, 2)], 1);
    field.load(&scores, 1);
    assert_eq!(field.puzzle[pos2puz(7, 1)], 0);
    assert_eq!(field.puzzle[pos2puz(7, 2)], 0);
    assert_eq!(field.puzzle[pos2puz(6, 1)], 1);
    assert_eq!(field.puzzle[pos2puz(5, 2)], 1);
    assert_eq!(field.puzzle[pos2puz(6, 2)], 0);
}

#[test]
fn board_is_ready_where_nothing_is_entered() {
    let (mut field, _) = field_on(1);
    // scores that can take nothing: no level, and full counters
    let full = unblocked::scores::Score {
        attempts: u32::MAX,
        wins: u32::MAX,
        hiscore: 1,
        first_win: 1,
        help_used: false,
    };
    let stored = unblocked::scores::ScoreVec { max_level: 1, levels: vec![full, full, full] };
    let mut scores = Scores::new(3, StoredScores::Found(stored));
    assert!(field.is_ready(false, &scores));
    assert!(field.is_ready(true, &scores));
    assert_eq!(field.update(true, &mut scores), Transition::Stay);
    assert_eq!(field.update_on(false, &mut scores, 730_000), Transition::Stay);
    field.bricks.clear();
    field.state = GameState::Winner;
    assert!(field.is_ready(false, &scores));
    assert!(!field.is_ready(true, &scores));
    assert!(!field.can_settle(true, &scores));
    assert!(field.can_settle(false, &scores));
    field.demoing = true;
    assert!(field.is_ready(true, &scores));
    field.state = GameState::Looser;
    assert!(!field.is_ready(true, &scores));
}

#[test]
fn readiness_looks_one_tick_ahead() {
    let (mut field, _) = field_on(0);
    let full = unblocked::scores::Score {
        attempts: u32::MAX,
        wins: u32::MAX,
        hiscore: 1,
        first_win: 1,
        help_used: false,
    };
    let stored = unblocked::scores::ScoreVec { max_level: 1, levels: vec![full] };
    let scores = Scores::new(3, StoredScores::Found(stored));
    field.throw_brick();
    run(&mut field, 28);
    field.throw_brick();
    run(&mut field, 27);
    // the next tick brings the brick home and wins the level
    assert_eq!(field.state, GameState::Unfinished);
    assert!(field.going_back);
    assert!(!field.is_ready(true, &scores));
    assert!(field.is_ready(false, &scores));
    let copy = field.duplicate();
    assert_eq!(cells(&copy), cells(&field));
    assert_eq!((copy.player, copy.state, copy.score), (field.player, field.state, field.score));
    field.tick();
    assert_eq!(field.state, GameState::Winner);
}
