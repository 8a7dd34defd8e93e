use hexchess::board::{
    adjacent, cell_at, down_left, down_right, get_file, get_rank, is_queening_hex, left,
    on_bottom_rank, on_left_edge, on_right_edge, on_top_rank, rank_length, right, step, up_left,
    up_right, validate_hex, Direction, OutOfRange, Player, HEX_COUNT,
};
use hexchess::pieces::Piece;

const DIRECTIONS: [Direction; 6] = [
    Direction::UpLeft,
    Direction::UpRight,
    Direction::Right,
    Direction::DownRight,
    Direction::DownLeft,
    Direction::Left,
];

fn reverse(d: Direction) -> Direction {
    match d {
        Direction::UpLeft => Direction::DownRight,
        Direction::UpRight => Direction::DownLeft,
        Direction::Right => Direction::Left,
        Direction::DownRight => Direction::UpLeft,
        Direction::DownLeft => Direction::UpRight,
        Direction::Left => Direction::Right,
    }
}

#[test]
fn rank_lengths_add_up_to_the_board() {
    let lengths: Vec<usize> = (0..11).map(rank_length).collect();
    assert_eq!(lengths, vec![6, 7, 8, 9, 10, 11, 10, 9, 8, 7, 6]);
    assert_eq!(lengths.iter().sum::<usize>(), HEX_COUNT);
}

#[test]
fn rank_and_file_of_chosen_cells() {
    assert_eq!((get_rank(0), get_file(0)), (0, 0));
    assert_eq!((get_rank(5), get_file(5)), (0, 5));
    assert_eq!((get_rank(6), get_file(6)), (1, 0));
    assert_eq!((get_rank(12), get_file(12)), (1, 6));
    assert_eq!((get_rank(40), get_file(40)), (5, 0));
    assert_eq!((get_rank(45), get_file(45)), (5, 5));
    assert_eq!((get_rank(50), get_file(50)), (5, 10));
    assert_eq!((get_rank(51), get_file(51)), (6, 0));
    assert_eq!((get_rank(84), get_file(84)), (9, 6));
    assert_eq!((get_rank(85), get_file(85)), (10, 0));
    assert_eq!((get_rank(90), get_file(90)), (10, 5));
}

#[test]
fn rank_and_file_give_the_cell_back() {
    let mut starts = vec![0usize];
    for rank in 0..11 {
        let next = starts[rank] + rank_length(rank);
        starts.push(next);
    }
    assert_eq!(starts, vec![0, 6, 13, 21, 30, 40, 51, 61, 70, 78, 85, 91]);
    for hex in 0..HEX_COUNT {
        let rank = get_rank(hex);
        let file = get_file(hex);
        assert!(rank < 11);
        assert!(file < rank_length(rank));
        assert_eq!(starts[rank] + file, hex);
        assert_eq!(cell_at(rank, file), Some(hex));
    }
}

#[test]
fn cell_at_knows_the_length_of_each_rank() {
    assert_eq!(cell_at(0, 0), Some(0));
    assert_eq!(cell_at(0, 5), Some(5));
    assert_eq!(cell_at(0, 6), None);
    assert_eq!(cell_at(5, 10), Some(50));
    assert_eq!(cell_at(5, 11), None);
    assert_eq!(cell_at(10, 5), Some(90));
    assert_eq!(cell_at(10, 6), None);
    let mut seen = 0;
    for rank in 0..11 {
        for file in 0..rank_length(rank) {
            assert_eq!(cell_at(rank, file), Some(seen));
            seen += 1;
        }
    }
    assert_eq!(seen, HEX_COUNT);
}

#[test]
fn edges_of_the_board() {
    assert!(on_left_edge(0));
    assert!(on_left_edge(40));
    assert!(on_left_edge(85));
    assert!(!on_left_edge(41));
    assert!(on_right_edge(5));
    assert!(on_right_edge(50));
    assert!(on_right_edge(90));
    assert!(!on_right_edge(49));
    assert!(on_top_rank(0));
    assert!(on_top_rank(5));
    assert!(!on_top_rank(6));
    assert!(on_bottom_rank(85));
    assert!(on_bottom_rank(90));
    assert!(!on_bottom_rank(84));
}

#[test]
fn neighbours_in_the_upper_half() {
    assert_eq!(up_left(7), Some(0));
    assert_eq!(up_left(6), None);
    assert_eq!(up_left(12), Some(5));
    assert_eq!(up_right(6), Some(0));
    assert_eq!(up_right(11), Some(5));
    assert_eq!(up_right(12), None);
    assert_eq!(up_left(3), None);
    assert_eq!(up_right(3), None);
    assert_eq!(down_left(0), Some(6));
    assert_eq!(down_right(0), Some(7));
    assert_eq!(down_left(39), Some(49));
    assert_eq!(down_right(39), Some(50));
    assert_eq!(up_left(31), Some(21));
    assert_eq!(up_right(30), Some(21));
    assert_eq!(up_left(30), None);
}

#[test]
fn neighbours_in_the_middle_rank() {
    assert_eq!(up_left(40), None);
    assert_eq!(up_right(40), Some(30));
    assert_eq!(up_left(50), Some(39));
    assert_eq!(up_right(50), None);
    assert_eq!(down_left(40), None);
    assert_eq!(down_right(40), Some(51));
    assert_eq!(down_left(50), Some(60));
    assert_eq!(down_right(50), None);
    assert_eq!(left(40), None);
    assert_eq!(right(40), Some(41));
    assert_eq!(left(50), Some(49));
    assert_eq!(right(50), None);
}

#[test]
fn neighbours_in_the_lower_half() {
    assert_eq!(up_left(51), Some(40));
    assert_eq!(up_right(51), Some(41));
    assert_eq!(up_left(60), Some(49));
    assert_eq!(up_right(60), Some(50));
    assert_eq!(down_left(51), None);
    assert_eq!(down_right(51), Some(61));
    assert_eq!(down_left(60), Some(69));
    assert_eq!(down_right(60), None);
    assert_eq!(up_left(85), Some(78));
    assert_eq!(up_right(85), Some(79));
    assert_eq!(up_left(90), Some(83));
    assert_eq!(up_right(90), Some(84));
    assert_eq!(down_left(84), Some(90));
    assert_eq!(down_right(84), None);
    assert_eq!(down_left(78), None);
    assert_eq!(down_right(78), Some(85));
    assert_eq!(down_left(88), None);
    assert_eq!(down_right(88), None);
}

#[test]
fn adjacent_lists_neighbours_in_order() {
    assert_eq!(adjacent(45), vec![34, 35, 46, 56, 55, 44]);
    assert_eq!(adjacent(0), vec![1, 7, 6]);
    assert_eq!(adjacent(90), vec![83, 84, 89]);
    assert_eq!(adjacent(40), vec![30, 41, 51]);
    assert_eq!(adjacent(50), vec![39, 60, 49]);
}

#[test]
fn step_agrees_with_the_six_functions() {
    for hex in 0..HEX_COUNT {
        assert_eq!(step(Direction::UpLeft, hex), up_left(hex));
        assert_eq!(step(Direction::UpRight, hex), up_right(hex));
        assert_eq!(step(Direction::Right, hex), right(hex));
        assert_eq!(step(Direction::DownRight, hex), down_right(hex));
        assert_eq!(step(Direction::DownLeft, hex), down_left(hex));
        assert_eq!(step(Direction::Left, hex), left(hex));
        for i in 0..6 {
            assert_eq!(Direction::from_index(i), DIRECTIONS[i]);
        }
    }
}

#[test]
fn adjacency_is_symmetric() {
    for a in 0..HEX_COUNT {
        for d in DIRECTIONS {
            if let Some(b) = step(d, a) {
                assert!(b < HEX_COUNT);
                assert_ne!(a, b);
                assert_eq!(step(reverse(d), b), Some(a));
                assert!(adjacent(b).contains(&a));
                assert!(adjacent(a).contains(&b));
            }
        }
    }
}

#[test]
fn every_cell_has_three_to_six_distinct_neighbours() {
    for a in 0..HEX_COUNT {
        let n = adjacent(a);
        assert!(n.len() >= 3 && n.len() <= 6);
        for i in 0..n.len() {
            for j in 0..i {
                assert_ne!(n[i], n[j]);
            }
        }
    }
    assert_eq!(adjacent(45).len(), 6);
    assert_eq!(adjacent(6).len(), 4);
}

#[test]
fn validate_hex_accepts_the_board_only() {
    assert_eq!(validate_hex(0), Ok(0));
    assert_eq!(validate_hex(90), Ok(90));
    assert_eq!(validate_hex(91), Err(OutOfRange { hex: 91 }));
    assert_eq!(validate_hex(usize::MAX), Err(OutOfRange { hex: usize::MAX }));
}

#[test]
fn opposite_swaps_the_players() {
    assert_eq!(Player::White.opposite(), Player::Black);
    assert_eq!(Player::Black.opposite(), Player::White);
    assert_eq!(Player::White.opposite().opposite(), Player::White);
    assert_eq!(Player::Black.opposite().opposite(), Player::Black);
}

#[test]
fn queening_zones_are_the_far_ranks() {
    for hex in 0..HEX_COUNT {
        assert_eq!(is_queening_hex(hex, Player::White), hex <= 5);
        assert_eq!(is_queening_hex(hex, Player::Black), hex >= 85);
    }
    assert!(!is_queening_hex(84, Player::Black));
    assert!(!is_queening_hex(6, Player::White));
    assert!(!is_queening_hex(91, Player::Black));
}

#[test]
fn piece_codes() {
    assert_eq!(Piece::King.code(), 'K');
    assert_eq!(Piece::Queen.code(), 'Q');
    assert_eq!(Piece::Bishop.code(), 'B');
    assert_eq!(Piece::Knight.code(), 'N');
    assert_eq!(Piece::Fortress.code(), 'F');
    assert_eq!(Piece::General.code(), 'G');
    assert_eq!(Piece::Pawn.code(), 'P');
}

#[test]
fn piece_names() {
    assert_eq!(Piece::King.name(), "King");
    assert_eq!(Piece::Queen.name(), "Queen");
    assert_eq!(Piece::Bishop.name(), "Bishop");
    assert_eq!(Piece::Knight.name(), "Knight");
    assert_eq!(Piece::Fortress.name(), "Fortress");
    assert_eq!(Piece::General.name(), "General");
    assert_eq!(Piece::Pawn.name(), "Pawn");
    for piece in [Piece::King, Piece::Queen, Piece::Fortress, Piece::Pawn] {
        assert_eq!(piece.name(), format!("{:?}", piece));
    }
}
