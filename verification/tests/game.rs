use std::collections::HashMap;

use hexchess::board::{
    has_black_piece, has_colored_piece, has_white_piece, place_pieces, Board, Player, HEX_COUNT,
};
use hexchess::game::{AppState, Game};
use hexchess::logic::{count_threats, find_candidates, find_valid_moves};
use hexchess::pieces::Piece;

fn standard_placement() -> HashMap<usize, Piece> {
    let mut m = HashMap::new();
    m.insert(0, Piece::Pawn);
    m.insert(1, Piece::Bishop);
    m.insert(2, Piece::Queen);
    m.insert(3, Piece::King);
    m.insert(4, Piece::Bishop);
    m.insert(5, Piece::Pawn);
    m.insert(7, Piece::Pawn);
    m.insert(8, Piece::Knight);
    m.insert(9, Piece::Fortress);
    m.insert(10, Piece::Knight);
    m.insert(11, Piece::Pawn);
    m.insert(15, Piece::Pawn);
    m.insert(16, Piece::General);
    m.insert(17, Piece::General);
    m.insert(18, Piece::Pawn);
    m.insert(24, Piece::Pawn);
    m.insert(25, Piece::Pawn);
    m.insert(26, Piece::Pawn);
    m
}

fn game_with(pieces: &[(usize, Player, Piece)], turn: Player) -> Game {
    let mut hexes = [None; HEX_COUNT];
    for &(hex, player, piece) in pieces {
        hexes[hex] = Some((player, piece));
    }
    let mut b = Board { current_turn: turn, hexes, threats: [0; HEX_COUNT] };
    b.threats = count_threats(&b);
    Game::new(b)
}

fn counted(b: &Board) -> Vec<(usize, u8)> {
    (0..HEX_COUNT).filter(|&h| b.threats[h] != 0).map(|h| (h, b.threats[h])).collect()
}

fn occupied(b: &Board) -> Vec<(usize, Player, Piece)> {
    (0..HEX_COUNT).filter_map(|h| b.hexes[h].map(|(c, p)| (h, c, p))).collect()
}

#[test]
fn placement_is_mirrored_for_white() {
    let hexes = place_pieces(&standard_placement());
    assert_eq!(hexes[0], Some((Player::Black, Piece::Pawn)));
    assert_eq!(hexes[90], Some((Player::White, Piece::Pawn)));
    assert_eq!(hexes[3], Some((Player::Black, Piece::King)));
    assert_eq!(hexes[87], Some((Player::White, Piece::King)));
    assert_eq!(hexes[2], Some((Player::Black, Piece::Queen)));
    assert_eq!(hexes[88], Some((Player::White, Piece::Queen)));
    assert_eq!(hexes[9], Some((Player::Black, Piece::Fortress)));
    assert_eq!(hexes[81], Some((Player::White, Piece::Fortress)));
    assert_eq!(hexes[26], Some((Player::Black, Piece::Pawn)));
    assert_eq!(hexes[64], Some((Player::White, Piece::Pawn)));
    assert_eq!(hexes[6], None);
    assert_eq!(hexes[84], None);
    assert_eq!(hexes[45], None);
    assert_eq!(hexes.iter().filter(|h| h.is_some()).count(), 36);
    for hex in 0..45 {
        assert_eq!(hexes[hex].map(|(_, p)| p), hexes[90 - hex].map(|(_, p)| p));
    }
}

#[test]
fn placement_ignores_the_middle_and_the_lower_half() {
    let mut m = HashMap::new();
    m.insert(44, Piece::Knight);
    m.insert(45, Piece::Queen);
    m.insert(60, Piece::King);
    m.insert(200, Piece::King);
    let hexes = place_pieces(&m);
    assert_eq!(hexes[44], Some((Player::Black, Piece::Knight)));
    assert_eq!(hexes[46], Some((Player::White, Piece::Knight)));
    assert_eq!(hexes.iter().filter(|h| h.is_some()).count(), 2);
}

#[test]
fn new_board_has_white_to_move_and_no_attacks() {
    let b = Board::new(&standard_placement());
    assert_eq!(b.current_turn, Player::White);
    assert_eq!(b.hexes, place_pieces(&standard_placement()));
    assert_eq!(counted(&b), vec![]);
    assert_eq!(find_valid_moves(&b, 80), vec![71, 63, 78]);
    assert_eq!(find_valid_moves(&b, 79), vec![71]);
    assert_eq!(find_valid_moves(&b, 88), Vec::<usize>::new());
}

#[test]
fn new_board_counts_attacks_of_the_placement() {
    let mut m = HashMap::new();
    m.insert(44, Piece::King);
    let b = Board::new(&m);
    assert_eq!(
        occupied(&b),
        vec![(44, Player::Black, Piece::King), (46, Player::White, Piece::King)]
    );
    assert_eq!(counted(&b), vec![]);
    let mut m = HashMap::new();
    m.insert(34, Piece::Queen);
    let b = Board::new(&m);
    assert_eq!(
        occupied(&b),
        vec![(34, Player::Black, Piece::Queen), (56, Player::White, Piece::Queen)]
    );
    assert_eq!(counted(&b), vec![(34, 1), (56, 1)]);
}

#[test]
fn pieces_are_told_apart_by_colour() {
    let hexes = place_pieces(&standard_placement());
    assert!(has_black_piece(hexes, 0));
    assert!(!has_white_piece(hexes, 0));
    assert!(has_white_piece(hexes, 90));
    assert!(!has_black_piece(hexes, 90));
    assert!(!has_white_piece(hexes, 45));
    assert!(!has_black_piece(hexes, 45));
    assert!(has_colored_piece(hexes, 3, Player::Black));
    assert!(!has_colored_piece(hexes, 3, Player::White));
    assert!(has_colored_piece(hexes, 87, Player::White));
    assert!(!has_colored_piece(hexes, 45, Player::White));
    assert!(!has_colored_piece(hexes, 45, Player::Black));
}

#[test]
fn pawn_advances_straight_on_a_fresh_board() {
    let mut g = Game::new(Board::new(&standard_placement()));
    assert_eq!(g.state, AppState::Waiting(Player::White));
    assert_eq!(g.board.hexes[64], Some((Player::White, Piece::Pawn)));
    assert_eq!(find_valid_moves(&g.board, 64), vec![54, 55, 44]);
    assert_eq!(g.board.hexes[54], None);
    assert_eq!(g.board.hexes[55], None);
    assert_eq!(g.board.hexes[44], None);
    g.submit_click(Some(64));
    assert_eq!(g.state, AppState::SelectedPiece(Player::White, 64));
    assert_eq!(find_candidates(&g.board, 64), vec![54, 55, 44]);
    g.submit_click(Some(44));
    assert_eq!(g.state, AppState::Waiting(Player::Black));
    assert_eq!(g.board.current_turn, Player::Black);
    assert_eq!(g.board.hexes[44], Some((Player::White, Piece::Pawn)));
    assert_eq!(g.board.hexes[64], None);
    assert_eq!(counted(&g.board), vec![]);
    assert_eq!(g.board.threats, count_threats(&g.board));

    g.submit_click(Some(26));
    assert_eq!(g.state, AppState::SelectedPiece(Player::Black, 26));
    assert_eq!(find_candidates(&g.board, 26), vec![35, 36, 46]);
    g.submit_click(Some(35));
    assert_eq!(g.state, AppState::Waiting(Player::White));
    assert_eq!(g.board.current_turn, Player::White);
    assert_eq!(g.board.threats, count_threats(&g.board));
    g.submit_click(Some(44));
    assert_eq!(find_candidates(&g.board, 44), vec![33, 34]);
    g.submit_click(Some(35));
    assert_eq!(g.state, AppState::SelectedPiece(Player::White, 44));
    assert_eq!(g.board.hexes[35], Some((Player::Black, Piece::Pawn)));
}

#[test]
fn white_pawn_on_the_upper_half_advances_straight() {
    let mut g = game_with(
        &[
            (26, Player::White, Piece::Pawn),
            (87, Player::White, Piece::King),
            (3, Player::Black, Piece::King),
        ],
        Player::White,
    );
    assert_eq!(find_valid_moves(&g.board, 26), vec![17, 18, 10]);
    g.submit_click(Some(26));
    assert_eq!(g.state, AppState::SelectedPiece(Player::White, 26));
    g.submit_click(Some(10));
    assert_eq!(g.state, AppState::Waiting(Player::Black));
    assert_eq!(g.board.current_turn, Player::Black);
    assert_eq!(g.board.hexes[10], Some((Player::White, Piece::Pawn)));
    assert_eq!(g.board.hexes[26], None);
    assert_eq!(g.board.threats, count_threats(&g.board));
    assert_eq!(counted(&g.board), vec![(3, 1), (10, 1)]);
}

#[test]
fn selecting_an_empty_cell_changes_nothing() {
    let mut g = Game::new(Board::new(&standard_placement()));
    let before = g.board.hexes;
    g.submit_click(Some(45));
    assert_eq!(g.state, AppState::Waiting(Player::White));
    g.submit_click(None);
    assert_eq!(g.state, AppState::Waiting(Player::White));
    assert_eq!(g.board.hexes, before);
    assert_eq!(g.board.current_turn, Player::White);
}

#[test]
fn selecting_a_piece_of_the_other_side_changes_nothing() {
    let mut g = Game::new(Board::new(&standard_placement()));
    g.submit_click(Some(26));
    assert_eq!(g.state, AppState::Waiting(Player::White));
}

#[test]
fn selection_can_be_dropped_and_changed() {
    let mut g = Game::new(Board::new(&standard_placement()));
    let before = g.board.hexes;
    g.submit_click(Some(64));
    g.submit_click(Some(65));
    assert_eq!(g.state, AppState::SelectedPiece(Player::White, 65));
    g.submit_click(Some(65));
    assert_eq!(g.state, AppState::Waiting(Player::White));
    g.submit_click(Some(65));
    g.submit_click(Some(26));
    assert_eq!(g.state, AppState::SelectedPiece(Player::White, 65));
    g.submit_click(Some(10));
    assert_eq!(g.state, AppState::SelectedPiece(Player::White, 65));
    g.submit_click(None);
    assert_eq!(g.state, AppState::SelectedPiece(Player::White, 65));
    assert_eq!(g.board.hexes, before);
    assert_eq!(g.board.current_turn, Player::White);
}

#[test]
fn taking_the_king_ends_the_game() {
    let mut g = game_with(
        &[
            (87, Player::White, Piece::King),
            (80, Player::Black, Piece::Queen),
            (3, Player::Black, Piece::King),
            (45, Player::White, Piece::Pawn),
        ],
        Player::Black,
    );
    assert_eq!(g.state, AppState::Waiting(Player::Black));
    assert_eq!(counted(&g.board), vec![(80, 1), (87, 1)]);
    g.submit_click(Some(80));
    assert_eq!(g.state, AppState::SelectedPiece(Player::Black, 80));
    g.submit_click(Some(87));
    assert_eq!(g.state, AppState::GameWonBy(Player::Black));
    assert_eq!(g.board.hexes[87], Some((Player::Black, Piece::Queen)));
    assert_eq!(g.board.hexes[80], None);
    assert_eq!(g.board.current_turn, Player::Black);
    assert_eq!(counted(&g.board), vec![(80, 1), (87, 1)]);
    let after = g.board.hexes;
    for pick in [Some(3), Some(45), Some(87), Some(34), None, Some(45), Some(35)] {
        g.submit_click(pick);
        assert_eq!(g.state, AppState::GameWonBy(Player::Black));
        assert_eq!(g.board.hexes, after);
        assert_eq!(g.board.current_turn, Player::Black);
    }
}

#[test]
fn fortress_falls_only_to_two_attackers() {
    let pieces = [
        (45, Player::Black, Piece::Fortress),
        (46, Player::White, Piece::King),
        (24, Player::White, Piece::Knight),
        (0, Player::Black, Piece::Pawn),
        (90, Player::White, Piece::Pawn),
    ];
    let mut g = game_with(&pieces, Player::White);
    assert_eq!(counted(&g.board), vec![(45, 2), (46, 1)]);
    assert_eq!(find_candidates(&g.board, 46), vec![35, 36, 47, 57, 56, 45]);

    g.submit_click(Some(24));
    g.submit_click(Some(14));
    assert_eq!(g.state, AppState::Waiting(Player::Black));
    assert_eq!(counted(&g.board), vec![(0, 1), (45, 1), (46, 1)]);
    g.submit_click(Some(0));
    g.submit_click(Some(6));
    assert_eq!(g.state, AppState::Waiting(Player::White));
    assert_eq!(counted(&g.board), vec![(14, 1), (45, 1), (46, 1)]);

    g.submit_click(Some(46));
    assert_eq!(g.state, AppState::SelectedPiece(Player::White, 46));
    assert_eq!(find_valid_moves(&g.board, 46), vec![35, 36, 47, 57, 56, 45]);
    assert_eq!(find_candidates(&g.board, 46), vec![35, 36, 47, 57, 56]);
    g.submit_click(Some(45));
    assert_eq!(g.state, AppState::SelectedPiece(Player::White, 46));
    assert_eq!(g.board.hexes[45], Some((Player::Black, Piece::Fortress)));
    assert_eq!(g.board.hexes[46], Some((Player::White, Piece::King)));
    assert_eq!(g.board.current_turn, Player::White);

    let mut g = game_with(&pieces, Player::White);
    g.submit_click(Some(46));
    g.submit_click(Some(45));
    assert_eq!(g.state, AppState::Waiting(Player::Black));
    assert_eq!(g.board.hexes[45], Some((Player::White, Piece::King)));
    assert_eq!(g.board.hexes[46], None);
    assert_eq!(counted(&g.board), vec![]);
}

#[test]
fn pawns_become_queens_on_the_far_rank() {
    let mut g = game_with(
        &[
            (7, Player::White, Piece::Pawn),
            (84, Player::Black, Piece::Pawn),
            (79, Player::Black, Piece::Pawn),
            (45, Player::White, Piece::King),
            (40, Player::Black, Piece::King),
        ],
        Player::White,
    );
    assert_eq!(find_valid_moves(&g.board, 7), vec![0, 1]);
    assert_eq!(find_valid_moves(&g.board, 79), vec![85, 86]);
    assert_eq!(find_valid_moves(&g.board, 84), vec![90]);
    g.submit_click(Some(7));
    g.submit_click(Some(0));
    assert_eq!(g.state, AppState::Waiting(Player::Black));
    assert_eq!(g.board.hexes[0], Some((Player::White, Piece::Queen)));
    assert_eq!(g.board.hexes[7], None);
    assert_eq!(counted(&g.board), vec![(40, 1)]);
    g.submit_click(Some(79));
    g.submit_click(Some(85));
    assert_eq!(g.state, AppState::Waiting(Player::White));
    assert_eq!(g.board.hexes[85], Some((Player::Black, Piece::Queen)));
    assert_eq!(g.board.hexes[79], None);
    assert_eq!(counted(&g.board), vec![(40, 1), (45, 1)]);
    assert_eq!(
        find_valid_moves(&g.board, 85),
        vec![78, 70, 61, 51, 79, 72, 64, 55, 45, 86, 87, 88, 89, 90]
    );
}

#[test]
fn pawn_short_of_the_far_rank_stays_a_pawn() {
    let mut g = game_with(
        &[(72, Player::Black, Piece::Pawn), (15, Player::White, Piece::Pawn)],
        Player::Black,
    );
    assert_eq!(find_valid_moves(&g.board, 72), vec![79, 80, 86]);
    g.submit_click(Some(72));
    g.submit_click(Some(80));
    assert_eq!(g.board.hexes[80], Some((Player::Black, Piece::Pawn)));
    g.submit_click(Some(15));
    g.submit_click(Some(7));
    assert_eq!(g.board.hexes[7], Some((Player::White, Piece::Pawn)));
    assert_eq!(g.state, AppState::Waiting(Player::Black));
}

#[test]
fn other_pieces_are_not_promoted() {
    let mut g = game_with(&[(7, Player::White, Piece::King)], Player::White);
    g.submit_click(Some(7));
    g.submit_click(Some(0));
    assert_eq!(g.board.hexes[0], Some((Player::White, Piece::King)));
    assert_eq!(g.state, AppState::Waiting(Player::Black));
}
