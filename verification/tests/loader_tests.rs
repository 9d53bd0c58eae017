use unblocked::field::BrickKind;
use unblocked::loader::{c2brick, is_white, Level, LevelError, LevelFault, Loader};

fn level(corner: &[u8], rows: &[&str]) -> Level {
    Level {
        corner: corner.to_vec(),
        puzzle: rows.iter().map(|r| r.chars().map(c2brick).collect()).collect(),
        first: BrickKind::Joker,
    }
}

#[test]
fn c2brick_maps_every_alphabet() {
    for (chars, kind) in [
        ("Ss$1", BrickKind::K1),
        ("Xx%2", BrickKind::K2),
        ("Oo@3", BrickKind::K3),
        ("Tt=4", BrickKind::K4),
        ("Zz+5", BrickKind::K5),
        ("Ww:6", BrickKind::K6),
        ("?", BrickKind::Joker),
        (" .-*#;7a\u{e9}", BrickKind::Empty),
    ] {
        for c in chars.chars() {
            assert_eq!(c2brick(c), kind, "{:?}", c);
        }
    }
}

#[test]
fn is_white_agrees_with_the_standard_library() {
    for u in 0..=0x10_ffffu32 {
        if let Some(c) = char::from_u32(u) {
            assert_eq!(is_white(c), c.is_whitespace(), "{:#x}", u);
        }
    }
}

#[test]
fn validate_accepts_a_plain_level() {
    assert_eq!(level(&[], &["SX", "XS"]).validate(), Ok(()));
    assert_eq!(level(&[6, 4, 4, 3, 2, 1], &["$%=", "%%%", "%=$"]).validate(), Ok(()));
    assert_eq!(level(&[7, 7], &["SSSSSSS"; 7]).validate(), Ok(()));
}

#[test]
fn validate_rejects_a_hole_under_a_brick() {
    // the second row is shorter: its second cell is empty under a brick
    assert_eq!(level(&[], &["SS", "S"]).validate(), Err(LevelFault::Hole));
    assert_eq!(level(&[], &["SS", "S S", "SSS"]).validate(), Err(LevelFault::Hole));
    assert_eq!(level(&[], &["SX", "S."]).validate(), Err(LevelFault::Hole));
}

#[test]
fn validate_accepts_a_short_row_on_top() {
    assert_eq!(level(&[], &["S", "SS"]).validate(), Ok(()));
    assert_eq!(level(&[], &[".S", "SS"]).validate(), Ok(()));
}

#[test]
fn validate_rejects_a_corner_of_one_line() {
    assert_eq!(
        level(&[3], &["SX", "XS"]).validate(),
        Err(LevelFault::CornerLines { lines: 1 })
    );
}

#[test]
fn validate_rejects_a_corner_of_seven_lines() {
    assert_eq!(
        level(&[1, 1, 1, 1, 1, 1, 1], &["SX", "XS"]).validate(),
        Err(LevelFault::CornerLines { lines: 7 })
    );
}

#[test]
fn validate_rejects_a_long_corner_line() {
    assert_eq!(
        level(&[2, 8, 9], &["SX", "XS"]).validate(),
        Err(LevelFault::CornerLineTooLong { cells: 8 })
    );
}

#[test]
fn validate_rejects_wrong_puzzle_sizes() {
    assert_eq!(level(&[], &["SX"]).validate(), Err(LevelFault::PuzzleLines { rows: 1 }));
    assert_eq!(level(&[], &["SX"; 8]).validate(), Err(LevelFault::PuzzleLines { rows: 8 }));
    assert_eq!(level(&[], &["S", "S"]).validate(), Err(LevelFault::PuzzleColumns { columns: 1 }));
    assert_eq!(
        level(&[], &["SSSSSSSS", "SSSSSSSS"]).validate(),
        Err(LevelFault::PuzzleColumns { columns: 8 })
    );
}

#[test]
fn validate_reports_the_first_fault() {
    assert_eq!(
        level(&[9], &["S"]).validate(),
        Err(LevelFault::CornerLines { lines: 1 })
    );
    assert_eq!(
        level(&[9, 9], &["S"]).validate(),
        Err(LevelFault::CornerLineTooLong { cells: 9 })
    );
}

#[test]
fn loader_reads_the_documented_example() {
    let text = "; a comment\n# level 01\nstart:?\n******\n****\n****\n***\n**\n*\n\n$%=\n%%%\n%=$\n";
    let loader = Loader::new(text).unwrap();
    assert_eq!(loader.level_count(), 1);
    let lvl = loader.level(0);
    assert_eq!(lvl.corner, vec![6, 4, 4, 3, 2, 1]);
    assert_eq!(lvl.first, BrickKind::Joker);
    assert_eq!(
        lvl.puzzle,
        vec![
            vec![BrickKind::K1, BrickKind::K2, BrickKind::K4],
            vec![BrickKind::K2, BrickKind::K2, BrickKind::K2],
            vec![BrickKind::K2, BrickKind::K4, BrickKind::K1],
        ]
    );
}

#[test]
fn loader_reads_several_levels() {
    let text = "# demo\nstart:S\nSS\nSS\n# one\nstart:X\nSX\nSX\n# two\nSX\nXS";
    let loader = Loader::new(text).unwrap();
    assert_eq!(loader.level_count(), 3);
    assert_eq!(loader.level(0).first, BrickKind::K1);
    assert_eq!(loader.level(1).first, BrickKind::K2);
    assert_eq!(loader.level(2).first, BrickKind::Joker);
    assert_eq!(loader.level(2).puzzle[1], vec![BrickKind::K2, BrickKind::K1]);
    assert!(loader.level(1).corner.is_empty());
}

#[test]
fn loader_trims_line_ends_and_takes_carriage_returns() {
    let text = "start:  Z  \r\nSX \t\r\nXS\r\n\r\n";
    let loader = Loader::new(text).unwrap();
    assert_eq!(loader.level_count(), 1);
    let lvl = loader.level(0);
    assert_eq!(lvl.first, BrickKind::K5);
    assert_eq!(lvl.puzzle[0], vec![BrickKind::K1, BrickKind::K2]);
}

#[test]
fn loader_strips_repeated_start_words() {
    let loader = Loader::new("start:start:O\nSX\nXS\n").unwrap();
    assert_eq!(loader.level(0).first, BrickKind::K3);
    let loader = Loader::new("start:\nSX\nXS\n").unwrap();
    assert_eq!(loader.level(0).first, BrickKind::Joker);
}

#[test]
fn loader_of_nothing_has_no_levels() {
    assert_eq!(Loader::new("").unwrap().level_count(), 0);
    assert_eq!(Loader::new("; only\n# comments\n\n").unwrap().level_count(), 0);
}

#[test]
fn loader_names_the_level_that_it_refuses() {
    let text = "# demo\nSS\nSS\n# one\nSS\nS\n# two\nSS\nSS\n";
    assert_eq!(
        Loader::new(text).err(),
        Some(LevelError { level: 1, fault: LevelFault::Hole })
    );
    assert_eq!(
        Loader::new("***\n\nSS\nSS\n").err(),
        Some(LevelError { level: 0, fault: LevelFault::CornerLines { lines: 1 } })
    );
    assert_eq!(
        Loader::new("**\n********\n\nSS\nSS\n").err(),
        Some(LevelError { level: 0, fault: LevelFault::CornerLineTooLong { cells: 8 } })
    );
}

#[test]
fn loader_counts_a_corner_line_in_bytes_and_caps_it() {
    // a star and two characters of two bytes each: five bytes
    let text = "*\u{e9}\u{e9}\n**\n\nSS\nSS\n";
    let loader = Loader::new(text).unwrap();
    assert_eq!(loader.level(0).corner, vec![5, 2]);
    let long = format!("{}\n**\n\nSS\nSS\n", "*".repeat(300));
    assert_eq!(
        Loader::new(&long).err(),
        Some(LevelError { level: 0, fault: LevelFault::CornerLineTooLong { cells: 255 } })
    );
}

#[test]
fn loader_copy_holds_the_same_levels() {
    let loader = Loader::new("start:S\nSS\nSS\n# one\n**\n*\n\nSX\nSX\n").unwrap();
    let copy = loader.duplicate();
    assert_eq!(copy.level_count(), 2);
    assert_eq!(copy.level(1).corner, loader.level(1).corner);
    assert_eq!(copy.level(1).puzzle, loader.level(1).puzzle);
    assert_eq!(copy.level(0).first, BrickKind::K1);
}

#[test]
fn validate_level_names_the_level() {
    let bad = level(&[3], &["SX", "XS"]);
    assert_eq!(
        Loader::validate_level(&bad, 12),
        Err(LevelError { level: 12, fault: LevelFault::CornerLines { lines: 1 } })
    );
    assert_eq!(Loader::validate_level(&level(&[], &["SX", "XS"]), 12), Ok(()));
}

#[test]
fn default_level_is_blank() {
    let lvl = Level::default();
    assert!(lvl.corner.is_empty());
    assert!(lvl.puzzle.is_empty());
    assert_eq!(lvl.first, BrickKind::Joker);
}
