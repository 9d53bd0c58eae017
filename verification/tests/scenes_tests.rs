use unblocked::demo::DemoScene;
use unblocked::field::{BrickKind, GameState};
use unblocked::loader::Loader;
use unblocked::mainmenu::TitleScene;
use unblocked::play::{has_replay, PlayScene};
use unblocked::replay::{Action, ReplayEngine};
use unblocked::scenes::{Keys, Scene, SceneKind, SceneManager, Transition};
use unblocked::scores::{ScoreVec, Scores, StoredScores};

const LEVELS: &str = "# demo\nstart:S\nSS\nSS\n# one\nstart:X\nSX\nSX\n# two\nstart:S\nSS\nSS\n";

fn loader() -> Loader {
    Loader::new(LEVELS).unwrap()
}

fn scores() -> Scores {
    Scores::new(3, StoredScores::Missing)
}

fn none() -> Keys {
    Keys::none()
}

fn replay_of(moves: &[(u64, Action)]) -> Vec<u8> {
    let mut engine = ReplayEngine::new();
    engine.rec_start();
    for (tick, act) in moves {
        engine.add_action(*tick, *act);
    }
    engine.save().unwrap()
}

#[test]
fn keys_none_has_nothing_pressed() {
    let k = none();
    assert!(!(k.up || k.down || k.left || k.right || k.space || k.enter));
    assert!(!(k.numpad_enter || k.escape || k.f1 || k.f5 || k.shift));
}

#[test]
fn menu_selection_goes_round() {
    let mut sc = scores();
    let mut menu = TitleScene::new();
    assert_eq!(menu.menu_id, 0);
    assert_eq!(menu.update(&Keys { up: true, ..none() }, &mut sc), Transition::Stay);
    assert_eq!(menu.menu_id, 3);
    menu.update(&Keys { down: true, ..none() }, &mut sc);
    assert_eq!(menu.menu_id, 0);
    menu.update(&Keys { down: true, ..none() }, &mut sc);
    assert_eq!(menu.menu_id, 1);
    menu.update(&Keys { up: true, down: true, enter: true, ..none() }, &mut sc);
    assert_eq!(menu.menu_id, 0);
    assert_eq!(menu.update(&none(), &mut sc), Transition::Stay);
    assert_eq!(menu.menu_id, 0);
}

#[test]
fn menu_items_ask_for_their_scenes() {
    let mut sc = scores();
    let enter = Keys { enter: true, ..none() };
    let mut menu = TitleScene { menu_id: 0 };
    assert_eq!(menu.update(&enter, &mut sc), Transition::Push(SceneKind::Play));
    menu.menu_id = 1;
    assert_eq!(
        menu.update(&Keys { space: true, ..none() }, &mut sc),
        Transition::Push(SceneKind::Play)
    );
    menu.menu_id = 2;
    assert_eq!(
        menu.update(&Keys { numpad_enter: true, ..none() }, &mut sc),
        Transition::Push(SceneKind::Demo { level: 0 })
    );
    menu.menu_id = 3;
    assert_eq!(menu.update(&enter, &mut sc), Transition::Pop);
    assert_eq!(menu.menu_id, 3);
}

#[test]
fn menu_changes_the_level_to_start_from() {
    let stored = ScoreVec { max_level: 30, levels: vec![] };
    let mut sc = Scores::new(57, StoredScores::Found(stored));
    let mut menu = TitleScene { menu_id: 1 };
    let left = Keys { left: true, ..none() };
    assert_eq!(menu.update(&left, &mut sc), Transition::Stay);
    assert_eq!(sc.curr_level(), 29);
    menu.update(&Keys { left: true, shift: true, ..none() }, &mut sc);
    assert_eq!(sc.curr_level(), 19);
    menu.update(&Keys { right: true, ..none() }, &mut sc);
    assert_eq!(sc.curr_level(), 20);
    menu.update(&Keys { right: true, shift: true, ..none() }, &mut sc);
    assert_eq!(sc.curr_level(), 30);
    // left wins over enter on this item
    assert_eq!(menu.update(&Keys { left: true, enter: true, ..none() }, &mut sc), Transition::Stay);
    assert_eq!(sc.curr_level(), 29);
    // on another item left does nothing
    menu.menu_id = 0;
    menu.update(&left, &mut sc);
    assert_eq!(sc.curr_level(), 29);
}

#[test]
fn play_scene_begins_with_the_current_level() {
    let sc = scores();
    let mut play = PlayScene::new(loader(), &sc);
    assert_eq!(play.tick, 0);
    assert_eq!(play.field.level, 1);
    assert_eq!(play.field.player.kind, BrickKind::K2);
    assert_eq!(play.field.bricks.len(), 4);
    assert!(!play.field.demoing);
    assert_eq!(play.replay.action_count(), 0);
}

#[test]
fn play_scene_records_what_the_player_does() {
    let mut sc = scores();
    let mut play = PlayScene::new(loader(), &sc);
    let step = play.update_on(&Keys { up: true, ..none() }, None, &mut sc, 730_000);
    assert_eq!(step.transition, Transition::Stay);
    assert!(!step.persist);
    assert_eq!(step.level, 1);
    assert_eq!(play.tick, 1);
    assert_eq!(play.field.player.y, 13);
    play.update_on(&none(), None, &mut sc, 730_000);
    play.update_on(&Keys { down: true, ..none() }, None, &mut sc, 730_000);
    assert_eq!(play.field.player.y, 14);
    let step = play.update_on(&Keys { space: true, ..none() }, None, &mut sc, 730_000);
    assert_eq!(step.transition, Transition::Stay);
    assert_eq!(play.field.score, 1);
    assert!(play.field.player.is_moving());
    // the throw ended the update: the brick has not moved yet
    assert_eq!(play.field.player.scr_pos.x, 15 * 48_000);
    assert_eq!(play.replay.action_count(), 3);
    let bytes = play.replay.save().unwrap();
    let (_, moves): (u32, Vec<(u64, u32)>) = bincode::deserialize(&bytes).unwrap();
    assert_eq!(moves, vec![(1, 0), (3, 1), (4, 2)]);
}

#[test]
fn play_scene_records_keys_while_the_brick_flies_out() {
    let mut sc = scores();
    let mut play = PlayScene::new(loader(), &sc);
    play.update_on(&Keys { space: true, ..none() }, None, &mut sc, 730_000);
    play.update_on(&Keys { up: true, ..none() }, None, &mut sc, 730_000);
    assert_eq!(play.field.player.scr_pos.x, 14 * 48_000);
    // a throw that is not allowed is recorded too, and ends the update
    play.update_on(&Keys { space: true, ..none() }, None, &mut sc, 730_000);
    assert_eq!(play.field.player.scr_pos.x, 14 * 48_000);
    assert_eq!(play.replay.action_count(), 3);
    assert_eq!(play.field.score, 1);
    assert_eq!(play.field.player.y, 14);
    assert_eq!(play.tick, 3);
}

#[test]
fn play_scene_does_not_listen_while_the_brick_flies_back() {
    let mut sc = scores();
    let mut play = PlayScene::new(loader(), &sc);
    play.update_on(&Keys { space: true, ..none() }, None, &mut sc, 730_000);
    for _ in 0..14 {
        play.update_on(&none(), None, &mut sc, 730_000);
    }
    assert!(play.field.going_back);
    play.update_on(&Keys { up: true, ..none() }, None, &mut sc, 730_000);
    play.update_on(&Keys { space: true, ..none() }, None, &mut sc, 730_000);
    assert_eq!(play.replay.action_count(), 1);
    assert_eq!(play.field.player.scr_pos.x, 3 * 48_000);
}

#[test]
fn play_scene_hands_out_the_recording() {
    let mut sc = scores();
    let mut play = PlayScene::new(loader(), &sc);
    let step = play.update_on(&Keys { f5: true, ..none() }, None, &mut sc, 730_000);
    assert_eq!(step.saved, None);
    for _ in 0..300 {
        play.update_on(&none(), None, &mut sc, 730_000);
    }
    play.update_on(&Keys { up: true, ..none() }, None, &mut sc, 730_000);
    let step = play.update_on(&Keys { f5: true, ..none() }, None, &mut sc, 730_000);
    let bytes = step.saved.unwrap();
    assert_eq!(step.level, 1);
    let (version, moves): (u32, Vec<(u64, u32)>) = bincode::deserialize(&bytes).unwrap();
    assert_eq!((version, moves), (1, vec![(180, 0)]));
}

#[test]
fn leaving_early_counts_for_nothing() {
    let mut sc = scores();
    let mut play = PlayScene::new(loader(), &sc);
    play.field.score = 2;
    let step = play.update_on(&Keys { escape: true, ..none() }, None, &mut sc, 730_000);
    assert_eq!(step.transition, Transition::Pop);
    assert!(!step.persist);
    assert_eq!(sc.level_info(1).attempts, 0);
    assert_eq!(play.tick, 0);
}

#[test]
fn leaving_after_three_throws_is_a_failure() {
    let mut sc = scores();
    let mut play = PlayScene::new(loader(), &sc);
    play.field.score = 3;
    let step = play.update_on(&Keys { escape: true, ..none() }, None, &mut sc, 730_000);
    assert_eq!(step.transition, Transition::Pop);
    assert!(step.persist);
    assert_eq!(sc.level_info(1).attempts, 1);
    assert_eq!(sc.level_info(1).wins, 0);
}

#[test]
fn leaving_a_won_game_enters_the_win() {
    let mut sc = scores();
    let mut play = PlayScene::new(loader(), &sc);
    play.field.state = GameState::Winner;
    play.field.score = 6;
    let step = play.update_on(&Keys { escape: true, ..none() }, None, &mut sc, 730_000);
    assert!(step.persist);
    assert_eq!(sc.level_info(1).wins, 1);
    assert_eq!(sc.level_info(1).hiscore, 6);
    assert_eq!(sc.level_info(1).first_win, 730_000);
    assert_eq!(sc.curr_level(), 2);
}

#[test]
fn leaving_a_lost_game_is_a_failure() {
    let mut sc = scores();
    let mut play = PlayScene::new(loader(), &sc);
    play.field.state = GameState::Looser;
    let step = play.update_on(&Keys { escape: true, ..none() }, None, &mut sc, 730_000);
    assert!(step.persist);
    assert_eq!(sc.level_info(1).attempts, 1);
}

#[test]
fn lost_level_starts_the_recording_anew() {
    let mut sc = scores();
    let mut play = PlayScene::new(loader(), &sc);
    play.update_on(&Keys { up: true, ..none() }, None, &mut sc, 730_000);
    play.field.player.kind = BrickKind::K3;
    play.field.state = GameState::Looser;
    let step = play.update_on(&none(), None, &mut sc, 730_000);
    assert!(!step.persist);
    assert_eq!(play.tick, 0);
    assert_eq!(play.replay.action_count(), 0);
    assert_eq!(play.field.state, GameState::Looser);
    // the player confirms: the failure is entered and the level set up anew
    let step = play.update_on(&Keys { enter: true, ..none() }, None, &mut sc, 730_000);
    assert!(step.persist);
    assert_eq!(step.transition, Transition::Stay);
    assert_eq!(sc.level_info(1).attempts, 1);
    assert_eq!(play.field.state, GameState::Unfinished);
    assert_eq!(play.field.player.kind, BrickKind::K2);
    assert_eq!(play.tick, 1);
}

#[test]
fn help_puts_the_replay_on_top() {
    let mut sc = scores();
    sc.set_fail(1);
    let mut play = PlayScene::new(loader(), &sc);
    let help = replay_of(&[(1, Action::Throw)]);
    assert!(has_replay(&help));
    let step = play.update_on(&Keys { f1: true, ..none() }, Some(&help), &mut sc, 730_000);
    assert_eq!(step.transition, Transition::Push(SceneKind::Demo { level: 1 }));
    assert!(step.persist);
    assert!(sc.level_info(1).help_used);
    assert_eq!(play.tick, 1);
}

#[test]
fn help_without_a_replay_does_nothing() {
    let mut sc = scores();
    sc.set_fail(1);
    let mut play = PlayScene::new(loader(), &sc);
    let step = play.update_on(&Keys { f1: true, ..none() }, None, &mut sc, 730_000);
    assert_eq!(step.transition, Transition::Stay);
    assert!(!sc.level_info(1).help_used);
    assert!(!has_replay(&[1, 2, 3]));
    let step = play.update_on(&Keys { f1: true, ..none() }, Some(&[1, 2, 3]), &mut sc, 730_000);
    assert_eq!(step.transition, Transition::Stay);
    assert!(!step.persist);
    let empty = bincode::serialize(&(1u32, Vec::<(u64, u32)>::new())).unwrap();
    assert!(!has_replay(&empty));
}

#[test]
fn help_after_a_win_leaves_no_mark() {
    let mut sc = scores();
    sc.record_win(1, 4, 730_000);
    sc.dec_curr_level(1);
    let mut play = PlayScene::new(loader(), &sc);
    assert_eq!(play.field.level, 1);
    let help = replay_of(&[(1, Action::Throw)]);
    let step = play.update_on(&Keys { f1: true, ..none() }, Some(&help), &mut sc, 730_000);
    assert_eq!(step.transition, Transition::Push(SceneKind::Demo { level: 1 }));
    assert!(!step.persist);
    assert!(!sc.level_info(1).help_used);
}

#[test]
fn play_scene_update_takes_the_day_from_the_clock() {
    let mut sc = scores();
    let mut play = PlayScene::new(loader(), &sc);
    play.field.state = GameState::Winner;
    play.field.score = 6;
    let step = play.update(&Keys { escape: true, ..none() }, None, &mut sc);
    assert_eq!(step.transition, Transition::Pop);
    assert!(sc.level_info(1).first_win > 737_425);
}

#[test]
fn demo_scene_shows_the_rules_first() {
    let sc = scores();
    let bytes = replay_of(&[(1, Action::Throw), (29, Action::Throw)]);
    let mut show = DemoScene::new(loader(), &sc, 0, Some(&bytes));
    assert!(show.rules_shown);
    assert!(show.field.demoing);
    assert!(show.replay.is_playing());
    assert_eq!(show.update(&none()), Transition::Stay);
    assert_eq!(show.update(&Keys { enter: true, ..none() }), Transition::Stay);
    assert!(show.rules_shown);
    assert_eq!(show.tick, 0);
    assert_eq!(show.update(&Keys { space: true, ..none() }), Transition::Stay);
    assert!(!show.rules_shown);
    assert_eq!(show.tick, 0);
    assert_eq!(show.field.score, 0);
}

#[test]
fn demo_scene_plays_the_replay_on_the_board() {
    let sc = scores();
    let bytes = replay_of(&[(1, Action::Throw), (29, Action::Throw)]);
    let mut show = DemoScene::new(loader(), &sc, 0, Some(&bytes));
    show.rules_shown = false;
    assert_eq!(show.update(&none()), Transition::Stay);
    assert_eq!(show.field.score, 1);
    assert_eq!(show.replay.replay_percent(), 50);
    // the brick was thrown and moved in the same update
    assert_eq!(show.field.player.scr_pos.x, 14 * 48_000);
    for _ in 0..27 {
        assert_eq!(show.update(&none()), Transition::Stay);
    }
    assert_eq!(show.field.bricks.len(), 2);
    assert_eq!(show.field.state, GameState::Unfinished);
    show.update(&none());
    assert_eq!(show.field.score, 2);
    // the replay is over: the board counts as won
    assert!(!show.replay.is_playing());
    assert_eq!(show.field.state, GameState::Winner);
    for _ in 0..27 {
        assert_eq!(show.update(&none()), Transition::Stay);
    }
    assert!(show.field.bricks.is_empty());
    assert_eq!(show.tick, 56);
    assert_eq!(show.update(&Keys { numpad_enter: true, ..none() }), Transition::Pop);
}

#[test]
fn demo_scene_plays_all_moves_of_a_tick() {
    let sc = scores();
    let bytes = replay_of(&[(1, Action::Up), (1, Action::Up), (1, Action::Down)]);
    let mut show = DemoScene::new(loader(), &sc, 1, Some(&bytes));
    assert!(!show.rules_shown);
    show.update(&none());
    assert_eq!(show.field.player.y, 13);
    assert!(!show.replay.is_playing());
    assert_eq!(show.field.state, GameState::Winner);
}

#[test]
fn demo_scene_ends_on_escape_space_or_enter() {
    let sc = scores();
    let bytes = replay_of(&[(50, Action::Throw)]);
    for keys in [
        Keys { escape: true, ..none() },
        Keys { space: true, ..none() },
        Keys { enter: true, ..none() },
    ] {
        let mut show = DemoScene::new(loader(), &sc, 1, Some(&bytes));
        assert_eq!(show.update(&keys), Transition::Pop);
        assert_eq!(show.tick, 1);
    }
    // the enter key of the number pad ends a replay only when it is over
    let mut show = DemoScene::new(loader(), &sc, 1, Some(&bytes));
    assert_eq!(show.update(&Keys { numpad_enter: true, ..none() }), Transition::Stay);
    assert_eq!(show.field.state, GameState::Unfinished);
}

#[test]
fn demo_scene_without_a_replay_is_over_at_once() {
    let sc = scores();
    let mut show = DemoScene::new(loader(), &sc, 1, None);
    assert!(!show.replay.is_loaded());
    show.update(&none());
    assert_eq!(show.field.state, GameState::Winner);
    let mut show = DemoScene::new(loader(), &sc, 1, Some(&[0, 1, 2]));
    assert!(!show.replay.is_loaded());
    assert_eq!(show.replay.replay_percent(), 0);
}

#[test]
fn manager_begins_with_the_menu() {
    let manager = SceneManager::new(loader(), scores());
    assert_eq!(manager.scenes.len(), 1);
    assert!(matches!(manager.active(), Some(Scene::Title(_))));
}

#[test]
fn manager_runs_a_game_from_the_menu_and_back() {
    let mut manager = SceneManager::new(loader(), scores());
    let frame = manager.update(&Keys { enter: true, ..none() }, None, &[]);
    assert!(!frame.quit && !frame.persist && frame.saved.is_none());
    assert_eq!(manager.scenes.len(), 2);
    match manager.active() {
        Some(Scene::Play(play)) => assert_eq!(play.field.level, 1),
        _ => panic!("a game should be on top"),
    }
    let frame = manager.update(&Keys { up: true, ..none() }, None, &[]);
    assert!(!frame.quit);
    let frame = manager.update(&Keys { f5: true, ..none() }, None, &[]);
    let (level, bytes) = frame.saved.unwrap();
    assert_eq!(level, 1);
    assert_eq!(bytes, bincode::serialize(&(1u32, vec![(1u64, 0u32)])).unwrap());
    let frame = manager.update(&Keys { escape: true, ..none() }, None, &[]);
    assert!(!frame.quit && !frame.persist);
    assert_eq!(manager.scenes.len(), 1);
    assert!(matches!(manager.active(), Some(Scene::Title(_))));
}

#[test]
fn manager_shows_the_demo() {
    let demo = replay_of(&[(1, Action::Throw)]);
    let mut manager = SceneManager::new(loader(), scores());
    manager.update(&Keys { down: true, ..none() }, None, &demo);
    manager.update(&Keys { down: true, ..none() }, None, &demo);
    manager.update(&Keys { space: true, ..none() }, None, &demo);
    assert_eq!(manager.scenes.len(), 2);
    match manager.active() {
        Some(Scene::Demo(show)) => {
            assert!(show.rules_shown);
            assert!(show.replay.is_playing());
            assert_eq!(show.field.player.kind, BrickKind::K1);
        }
        _ => panic!("the demo should be on top"),
    }
    manager.update(&Keys { escape: true, ..none() }, None, &demo);
    manager.update(&none(), None, &demo);
    match manager.active() {
        Some(Scene::Demo(show)) => assert_eq!(show.field.score, 1),
        _ => panic!("the demo should be on top"),
    }
    manager.update(&Keys { escape: true, ..none() }, None, &demo);
    assert_eq!(manager.scenes.len(), 1);
}

#[test]
fn manager_puts_help_on_top_of_a_game() {
    let help = replay_of(&[(1, Action::Up)]);
    let mut sc = scores();
    sc.set_fail(1);
    let mut manager = SceneManager::new(loader(), sc);
    manager.update(&Keys { enter: true, ..none() }, None, &[]);
    let frame = manager.update(&Keys { f1: true, ..none() }, Some(&help), &[]);
    assert!(frame.persist);
    assert_eq!(manager.scenes.len(), 3);
    assert!(manager.scores.level_info(1).help_used);
    match manager.active() {
        Some(Scene::Demo(show)) => {
            assert!(!show.rules_shown);
            assert_eq!(show.field.player.kind, BrickKind::K2);
            assert_eq!(show.replay.replay_percent(), 0);
        }
        _ => panic!("the replay should be on top"),
    }
    manager.update(&Keys { escape: true, ..none() }, Some(&help), &[]);
    assert!(matches!(manager.active(), Some(Scene::Play(_))));
}

#[test]
fn manager_quits_when_the_menu_ends() {
    let mut manager = SceneManager::new(loader(), scores());
    manager.update(&Keys { up: true, ..none() }, None, &[]);
    let frame = manager.update(&Keys { enter: true, ..none() }, None, &[]);
    assert!(!frame.quit);
    assert!(manager.scenes.is_empty());
    assert!(manager.active().is_none());
    let frame = manager.update(&none(), None, &[]);
    assert!(frame.quit);
    let frame = manager.update_on(&none(), None, &[], 730_000);
    assert!(frame.quit);
}

#[test]
fn manager_plays_the_last_level_to_the_end() {
    let stored = ScoreVec { max_level: 2, levels: vec![] };
    let mut manager = SceneManager::new(loader(), Scores::new(3, StoredScores::Found(stored)));
    manager.update(&Keys { enter: true, ..none() }, None, &[]);
    for _ in 0..2 {
        let frame = manager.update_on(&Keys { space: true, ..none() }, None, &[], 730_000);
        assert!(!frame.persist);
        for _ in 0..28 {
            manager.update_on(&none(), None, &[], 730_000);
        }
    }
    match manager.active() {
        Some(Scene::Play(play)) => {
            assert_eq!(play.field.level, 2);
            assert_eq!(play.field.state, GameState::Completed);
            assert_eq!(play.field.score, 2);
            assert_eq!(play.tick, 58);
        }
        _ => panic!("the game should be on top"),
    }
    let frame = manager.update_on(&Keys { enter: true, ..none() }, None, &[], 730_000);
    assert!(frame.persist);
    assert!(!frame.quit);
    assert_eq!(manager.scenes.len(), 1);
    let won = manager.scores.level_info(2);
    assert_eq!((won.wins, won.attempts, won.hiscore, won.first_win), (1, 1, 2, 730_000));
    assert_eq!(manager.scores.curr_level(), 2);
}

#[test]
fn menu_says_what_it_will_ask() {
    let mut sc = scores();
    for menu_id in 0..4 {
        for keys in [
            none(),
            Keys { enter: true, ..none() },
            Keys { up: true, enter: true, ..none() },
            Keys { left: true, space: true, ..none() },
            Keys { numpad_enter: true, ..none() },
        ] {
            let mut menu = TitleScene { menu_id };
            let said = menu.asks(&keys);
            assert_eq!(menu.update(&keys, &mut sc), said);
        }
    }
}

#[test]
fn manager_asks_for_levels_only_where_it_opens_one() {
    // the scores point at a level that does not exist
    let stored = ScoreVec { max_level: 9, levels: vec![] };
    let mut manager = SceneManager::new(loader(), Scores::new(3, StoredScores::Found(stored)));
    assert!(manager.is_ready(&none(), None));
    assert!(manager.is_ready(&Keys { down: true, ..none() }, None));
    assert!(!manager.is_ready(&Keys { enter: true, ..none() }, None));
    manager.update(&Keys { down: true, ..none() }, None, &[]);
    manager.update(&Keys { down: true, ..none() }, None, &[]);
    // the demo level exists
    assert!(manager.is_ready(&Keys { enter: true, ..none() }, None));
}

#[test]
fn play_scene_asks_of_the_scores_only_what_it_enters() {
    let full = unblocked::scores::Score {
        attempts: u32::MAX,
        wins: 0,
        hiscore: 0,
        first_win: 0,
        help_used: false,
    };
    let stored = ScoreVec { max_level: 1, levels: vec![full, full] };
    let mut sc = Scores::new(3, StoredScores::Found(stored));
    let mut play = PlayScene::new(loader(), &sc);
    assert!(play.is_ready(&none(), None, &sc));
    assert!(play.is_ready(&Keys { space: true, ..none() }, None, &sc));
    assert!(play.is_ready(&Keys { enter: true, ..none() }, None, &sc));
    // leaving at once enters nothing
    assert!(play.is_ready(&Keys { escape: true, ..none() }, None, &sc));
    play.update(&Keys { space: true, ..none() }, None, &mut sc);
    play.field.score = 3;
    // leaving after three throws would enter a failure
    assert!(!play.is_ready(&Keys { escape: true, ..none() }, None, &sc));
    assert!(play.is_ready(&none(), None, &sc));
    play.field.score = u32::MAX;
    play.field.going_back = false;
    assert!(play.is_ready(&Keys { space: true, ..none() }, None, &sc));
}
