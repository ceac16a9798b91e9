use std::collections::HashSet;

use tictactoe::board::{line_completed_by, turn_from_draw, Cell, Turn};
use tictactoe::game::{Game, MoveError, Outcome};
use tictactoe::text::{answer_is_yes, is_yes_word};

fn game_with(player: &[u32], bot: &[u32]) -> Game {
    let mut g = Game::new();
    for &m in player {
        g.apply(m, Turn::Player);
    }
    for &m in bot {
        g.apply(m, Turn::Bot);
    }
    g
}

#[test]
fn new_game_is_empty() {
    let g = Game::new();
    for m in 1..=9 {
        assert_eq!(g.cell(m), Cell::Empty);
        assert!(g.is_valid_move(m));
    }
    assert!(!g.game_is_won());
    assert!(!g.game_is_finished());
}

#[test]
fn board_location_of_each_corner_and_centre() {
    assert_eq!(Game::get_board_location(1), (0, 0));
    assert_eq!(Game::get_board_location(3), (0, 2));
    assert_eq!(Game::get_board_location(5), (1, 1));
    assert_eq!(Game::get_board_location(6), (1, 2));
    assert_eq!(Game::get_board_location(7), (2, 0));
    assert_eq!(Game::get_board_location(9), (2, 2));
}

#[test]
fn apply_marks_cell_for_side() {
    let g = game_with(&[5], &[1]);
    assert_eq!(g.cell(5), Cell::Marked(Turn::Player));
    assert_eq!(g.cell(1), Cell::Marked(Turn::Bot));
    assert_eq!(g.cell(2), Cell::Empty);
}

#[test]
fn validity_follows_range_and_claims() {
    let g = game_with(&[5], &[1]);
    assert!(!g.is_valid_move(0));
    assert!(!g.is_valid_move(10));
    assert!(!g.is_valid_move(u32::MAX));
    assert!(!g.is_valid_move(5));
    assert!(!g.is_valid_move(1));
    for m in [2, 3, 4, 6, 7, 8, 9] {
        assert!(g.is_valid_move(m));
    }
}

#[test]
fn validate_reads_numbers_around_white_space() {
    let g = game_with(&[5], &[]);
    assert_eq!(g.validate("  7 \n"), Ok(7));
    assert_eq!(g.validate("+3\n"), Ok(3));
    assert_eq!(g.validate("9"), Ok(9));
}

#[test]
fn validate_rejects_non_numbers() {
    let g = Game::new();
    assert_eq!(g.validate("abc\n"), Err(MoveError::NotANumber));
    assert_eq!(g.validate("-1"), Err(MoveError::NotANumber));
    assert_eq!(g.validate(""), Err(MoveError::NotANumber));
    assert_eq!(g.validate("4 5"), Err(MoveError::NotANumber));
    assert_eq!(g.validate("99999999999"), Err(MoveError::NotANumber));
}

#[test]
fn validate_rejects_unavailable_numbers() {
    let g = game_with(&[5], &[2]);
    assert_eq!(g.validate("0"), Err(MoveError::Unavailable));
    assert_eq!(g.validate("10\n"), Err(MoveError::Unavailable));
    assert_eq!(g.validate("5"), Err(MoveError::Unavailable));
    assert_eq!(g.validate(" 2 "), Err(MoveError::Unavailable));
}

#[test]
fn validate_trimmed_takes_text_as_is() {
    let g = Game::new();
    assert_eq!(g.validate_trimmed("4"), Ok(4));
    assert_eq!(g.validate_trimmed(" 4"), Err(MoveError::NotANumber));
}

#[test]
fn bot_takes_winning_cell() {
    let mut g = game_with(&[], &[1, 2]);
    assert_eq!(g.find_bot_winning_move(), Some(3));
    assert_eq!(g.choose_bot_move(12345), 3);
    assert_eq!(g.cell(3), Cell::Marked(Turn::Bot));
    assert!(g.game_is_won());
}

#[test]
fn bot_blocks_player_line() {
    let mut g = game_with(&[1, 2], &[]);
    assert_eq!(g.find_bot_winning_move(), None);
    assert_eq!(g.find_bot_saving_move(), Some(3));
    assert_eq!(g.choose_bot_move(7), 3);
    assert_eq!(g.cell(3), Cell::Marked(Turn::Bot));
}

#[test]
fn bot_prefers_win_over_block() {
    let mut g = game_with(&[1, 2], &[4, 5]);
    assert_eq!(g.find_bot_saving_move(), Some(3));
    assert_eq!(g.find_bot_winning_move(), Some(6));
    assert_eq!(g.choose_bot_move(0), 6);
}

#[test]
fn bot_completes_main_diagonal() {
    let mut g = game_with(&[3], &[1, 5]);
    assert_eq!(g.choose_bot_move(0), 9);
}

#[test]
fn bot_takes_lowest_of_several_wins() {
    let mut g = game_with(&[], &[5, 9, 8]);
    // 1 completes the diagonal 1-5-9, 2 the column 2-5-8, 7 the row 7-8-9.
    assert_eq!(g.find_bot_winning_move(), Some(1));
    assert_eq!(g.choose_bot_move(3), 1);
}

#[test]
fn forced_move_does_not_depend_on_draw() {
    for draw in [0, 1, 2, 17, u32::MAX] {
        let mut g = game_with(&[1, 2], &[]);
        assert_eq!(g.choose_bot_move(draw), 3);
        let mut h = game_with(&[], &[1, 2]);
        assert_eq!(h.choose_bot_move(draw), 3);
    }
}

#[test]
fn random_tier_picks_free_cell_by_draw() {
    let mut g = Game::new();
    assert_eq!(g.choose_bot_move(0), 1);
    let mut g = Game::new();
    assert_eq!(g.choose_bot_move(4), 5);
    let mut g = Game::new();
    assert_eq!(g.choose_bot_move(9), 1);
    let mut g = game_with(&[1], &[]);
    assert_eq!(g.choose_bot_move(0), 2);
    assert_eq!(g.cell(2), Cell::Marked(Turn::Bot));
}

#[test]
fn random_bot_move_is_valid() {
    for _ in 0..20 {
        let mut g = game_with(&[5], &[1]);
        let m = g.get_bot_move();
        assert!((1..=9).contains(&m));
        assert!(m != 5 && m != 1);
        assert_eq!(g.cell(m), Cell::Marked(Turn::Bot));
    }
    let mut g = game_with(&[4, 5], &[]);
    assert_eq!(g.get_bot_move(), 6);
}

#[test]
fn full_board_with_line_is_a_win() {
    let mut g = game_with(&[1, 2, 3, 6, 8], &[4, 5, 7, 9]);
    assert!(g.game_is_won());
    assert!(g.game_is_finished());
    let turn = g.current_turn();
    assert_eq!(g.finish_turn(), Outcome::Won(turn));
    assert_eq!(g.current_turn(), turn);
}

#[test]
fn full_board_without_line_is_a_draw() {
    let mut g = game_with(&[1, 3, 4, 8, 9], &[2, 5, 6, 7]);
    assert!(!g.game_is_won());
    assert!(g.game_is_finished());
    assert_eq!(g.finish_turn(), Outcome::Draw);
}

#[test]
fn unfinished_game_passes_the_turn() {
    let mut g = game_with(&[5], &[]);
    let turn = g.current_turn();
    assert_eq!(g.get_next_turn(), if turn == Turn::Player { Turn::Bot } else { Turn::Player });
    assert_eq!(g.finish_turn(), Outcome::Continue);
    assert_ne!(g.current_turn(), turn);
}

#[test]
fn column_and_anti_diagonal_wins() {
    assert!(game_with(&[2, 5, 8], &[]).game_is_won());
    assert!(game_with(&[], &[3, 5, 7]).game_is_won());
    assert!(!game_with(&[3, 5], &[7]).game_is_won());
}

#[test]
fn reset_restores_empty_board() {
    let mut g = game_with(&[1, 2, 3, 6, 8], &[4, 5, 7, 9]);
    g.reset();
    for m in 1..=9 {
        assert_eq!(g.cell(m), Cell::Empty);
        assert!(g.is_valid_move(m));
    }
    assert!(!g.game_is_won());
    assert!(!g.game_is_finished());
    assert_eq!(g.choose_bot_move(0), 1);
}

#[test]
fn first_turn_follows_draw() {
    assert_eq!(turn_from_draw(0), Turn::Player);
    assert_eq!(turn_from_draw(1), Turn::Bot);
    assert_eq!(turn_from_draw(u32::MAX), Turn::Bot);
    let t = Game::pick_player();
    assert!(t == Turn::Player || t == Turn::Bot);
}

#[test]
fn line_check_through_each_kind_of_cell() {
    let s: HashSet<u32> = [1, 2].into_iter().collect();
    assert!(line_completed_by(&s, 3));
    assert!(!line_completed_by(&s, 4));
    let s: HashSet<u32> = [1, 9].into_iter().collect();
    assert!(line_completed_by(&s, 5));
    let s: HashSet<u32> = [3, 5].into_iter().collect();
    assert!(line_completed_by(&s, 7));
    assert!(!line_completed_by(&s, 9));
    let s: HashSet<u32> = [4, 7].into_iter().collect();
    assert!(line_completed_by(&s, 1));
    let s: HashSet<u32> = HashSet::new();
    for i in 1..=9 {
        assert!(!line_completed_by(&s, i));
    }
}

#[test]
fn yes_answers() {
    assert!(answer_is_yes("y\n"));
    assert!(answer_is_yes("Y"));
    assert!(answer_is_yes("  Yes \n"));
    assert!(answer_is_yes("YES"));
    assert!(!answer_is_yes("no"));
    assert!(!answer_is_yes(""));
    assert!(!answer_is_yes("yess"));
    assert!(is_yes_word("yes"));
    assert!(!is_yes_word("Yes"));
    assert!(!is_yes_word(" y"));
}
