use sokoban::game::{Direction, InvalidChar, Level, Position, Symbol, classify};

const EXAMPLE: &str = " ####\n#@$.#\n ####\n";

fn pos(row: i32, col: i32) -> Position {
    Position::new(row, col)
}

#[test]
fn parse_example_level() {
    let level = Level::from_str(EXAMPLE).unwrap();
    for c in 1..5 {
        assert!(level.is_wall(&pos(0, c)));
        assert!(level.is_wall(&pos(2, c)));
    }
    assert!(!level.is_wall(&pos(0, 0)));
    assert!(level.is_wall(&pos(1, 0)));
    assert!(level.is_wall(&pos(1, 4)));
    assert!(level.is_player(&pos(1, 1)));
    assert!(level.is_box(&pos(1, 2)));
    assert!(level.is_square(&pos(1, 3)));
    assert!(!level.is_box(&pos(1, 3)));
    assert_eq!(level.extents(), (5, 3));
    assert_eq!(level.get_steps(), 0);
    assert_eq!(level.title(), "");
    assert!(!level.is_completed());
}

#[test]
fn push_box_onto_target_completes() {
    let mut level = Level::from_str(EXAMPLE).unwrap();
    level.step(Direction::Right);
    assert!(level.is_player(&pos(1, 2)));
    assert!(!level.is_box(&pos(1, 2)));
    assert!(level.is_box(&pos(1, 3)));
    assert!(level.is_completed());
    assert_eq!(level.get_steps(), 1);
}

#[test]
fn invalid_char_reports_position() {
    let err = Level::from_str("#@#\n# x.#\n").err().unwrap();
    assert_eq!(err, InvalidChar('x', pos(1, 2)));
    let err = Level::from_str("x").err().unwrap();
    assert_eq!(err, InvalidChar('x', pos(0, 0)));
    let err = Level::from_str("####\n\n  @x").err().unwrap();
    assert_eq!(err, InvalidChar('x', pos(2, 3)));
}

#[test]
fn first_invalid_char_wins() {
    let err = Level::from_str("#?x").err().unwrap();
    assert_eq!(err, InvalidChar('?', pos(0, 1)));
}

#[test]
fn walking_into_wall_changes_nothing() {
    let mut level = Level::from_str("#@ \n").unwrap();
    level.step(Direction::Left);
    assert!(level.is_player(&pos(0, 1)));
    assert_eq!(level.get_steps(), 0);
    assert!(!level.is_wall(&pos(0, 1)));
}

#[test]
fn push_against_wall_changes_nothing() {
    let mut level = Level::from_str("@$#\n").unwrap();
    level.step(Direction::Right);
    assert!(level.is_player(&pos(0, 0)));
    assert!(level.is_box(&pos(0, 1)));
    assert_eq!(level.get_steps(), 0);
}

#[test]
fn push_against_box_changes_nothing() {
    let mut level = Level::from_str("@$$ \n").unwrap();
    level.step(Direction::Right);
    assert!(level.is_player(&pos(0, 0)));
    assert!(level.is_box(&pos(0, 1)));
    assert!(level.is_box(&pos(0, 2)));
    assert!(level.is_free(&pos(0, 3)));
    assert_eq!(level.get_steps(), 0);
}

#[test]
fn free_move_counts_one_step() {
    let mut level = Level::from_str(" \n@ \n \n").unwrap();
    level.step(Direction::Right);
    assert!(level.is_player(&pos(1, 1)));
    assert_eq!(level.get_steps(), 1);
    level.step(Direction::Left);
    level.step(Direction::Up);
    assert!(level.is_player(&pos(0, 0)));
    level.step(Direction::Down);
    level.step(Direction::Down);
    assert!(level.is_player(&pos(2, 0)));
    assert_eq!(level.get_steps(), 5);
}

#[test]
fn move_onto_target_counts() {
    let mut level = Level::from_str("@.").unwrap();
    assert!(level.is_free(&pos(0, 1)));
    level.step(Direction::Right);
    assert!(level.is_player(&pos(0, 1)));
    assert!(level.is_square(&pos(0, 1)));
    assert_eq!(level.get_steps(), 1);
}

#[test]
fn pushing_box_off_target_uncompletes() {
    let mut level = Level::from_str("@* \n").unwrap();
    assert!(level.is_completed());
    level.step(Direction::Right);
    assert!(level.is_box(&pos(0, 2)));
    assert!(!level.is_completed());
    assert_eq!(level.get_steps(), 1);
}

#[test]
fn completion_allows_extra_boxes() {
    let level = Level::from_str("@*$\n").unwrap();
    assert!(level.is_completed());
    let level = Level::from_str("@$\n").unwrap();
    assert!(level.is_completed());
    let level = Level::from_str("@$.\n").unwrap();
    assert!(!level.is_completed());
}

#[test]
fn player_on_square_and_box_on_square() {
    let level = Level::from_str("+*").unwrap();
    assert!(level.is_player(&pos(0, 0)));
    assert!(level.is_square(&pos(0, 0)));
    assert!(level.is_box(&pos(0, 1)));
    assert!(level.is_square(&pos(0, 1)));
    assert_eq!(level.extents(), (2, 1));
}

#[test]
fn empty_text_gives_player_at_origin() {
    let level = Level::from_str("").unwrap();
    assert!(level.is_player(&pos(0, 0)));
    assert_eq!(level.extents(), (1, 1));
    assert!(level.is_completed());
}

#[test]
fn last_player_marker_wins() {
    let level = Level::from_str("@ @").unwrap();
    assert!(level.is_player(&pos(0, 2)));
    assert!(!level.is_player(&pos(0, 0)));
}

#[test]
fn extents_follow_longest_row() {
    let level = Level::from_str("#\n#   .\n@\n\n").unwrap();
    assert_eq!(level.extents(), (5, 3));
}

#[test]
fn no_player_marker_defaults_to_origin_even_on_wall() {
    let level = Level::from_str("##\n").unwrap();
    assert!(level.is_player(&pos(0, 0)));
    assert!(level.is_wall(&pos(0, 0)));
}

#[test]
fn set_title_replaces_title() {
    let mut level = Level::from_str("@").unwrap();
    level.set_title(String::from("Level 7"));
    assert_eq!(level.title(), "Level 7");
}

#[test]
fn clone_restores_initial_state() {
    let reference = Level::from_str(EXAMPLE).unwrap();
    let mut level = reference.clone();
    level.step(Direction::Right);
    assert!(level.is_completed());
    level = reference.clone();
    assert!(!level.is_completed());
    assert!(level.is_player(&pos(1, 1)));
    assert_eq!(level.get_steps(), 0);
}

#[test]
fn neighbor_moves_one_cell() {
    let p = pos(3, 7);
    assert_eq!(p.neighbor(Direction::Up), pos(2, 7));
    assert_eq!(p.neighbor(Direction::Down), pos(4, 7));
    assert_eq!(p.neighbor(Direction::Left), pos(3, 6));
    assert_eq!(p.neighbor(Direction::Right), pos(3, 8));
    assert_eq!(p.row(), 3);
    assert_eq!(p.column(), 7);
}

#[test]
fn neighbor_wraps_at_range_ends() {
    assert_eq!(pos(i32::MIN, 0).neighbor(Direction::Up), pos(i32::MAX, 0));
    assert_eq!(pos(0, i32::MAX).neighbor(Direction::Right), pos(0, i32::MIN));
}

#[test]
fn classify_symbols() {
    assert_eq!(classify('#'), Symbol::Wall);
    assert_eq!(classify('.'), Symbol::Square);
    assert_eq!(classify('$'), Symbol::Box);
    assert_eq!(classify('@'), Symbol::Player);
    assert_eq!(classify('+'), Symbol::PlayerOnSquare);
    assert_eq!(classify('*'), Symbol::BoxOnSquare);
    assert_eq!(classify(' '), Symbol::Floor);
    assert_eq!(classify('\n'), Symbol::Newline);
    assert_eq!(classify('x'), Symbol::Invalid('x'));
}
