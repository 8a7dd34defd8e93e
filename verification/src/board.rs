//! Board topology and the positional data model.
//!
//! The board is a hexagon of 91 cells laid out in eleven ranks of lengths
//! 6, 7, 8, 9, 10, 11, 10, 9, 8, 7, 6. Cells are numbered rank by rank, left to
//! right, starting from the top rank.

use vstd::prelude::*;
use std::collections::HashMap;
use crate::pieces::Piece;

verus! {

/// Number of cells on the board.
pub const HEX_COUNT: usize = 91;

/// Number of ranks on the board.
pub const RANK_COUNT: usize = 11;

/// One of the two sides.
#[derive(Clone, Copy, Debug, PartialEq, Eq, Structural)]
pub enum Player {
    White,
    Black,
}

impl Player {
    pub open spec fn spec_opposite(self) -> Player {
        match self {
            Player::White => Player::Black,
            Player::Black => Player::White,
        }
    }

    /// The other side.
    pub fn opposite(self) -> (p: Player)
        ensures
            p == self.spec_opposite(),
            p != self,
            p.spec_opposite() == self,
    {
        match self {
            Player::White => Player::Black,
            Player::Black => Player::White,
        }
    }
}

/// The six directions in which a cell can have a neighbour, in the order in
/// which neighbours are listed.
#[derive(Clone, Copy, Debug, PartialEq, Eq, Structural)]
pub enum Direction {
    UpLeft,
    UpRight,
    Right,
    DownRight,
    DownLeft,
    Left,
}

impl Direction {
    /// The direction that leads back.
    pub open spec fn reverse(self) -> Direction {
        match self {
            Direction::UpLeft => Direction::DownRight,
            Direction::UpRight => Direction::DownLeft,
            Direction::Right => Direction::Left,
            Direction::DownRight => Direction::UpLeft,
            Direction::DownLeft => Direction::UpRight,
            Direction::Left => Direction::Right,
        }
    }

    /// The direction with the given position in the listing order.
    pub open spec fn at(i: int) -> Direction {
        if i <= 0 {
            Direction::UpLeft
        } else if i == 1 {
            Direction::UpRight
        } else if i == 2 {
            Direction::Right
        } else if i == 3 {
            Direction::DownRight
        } else if i == 4 {
            Direction::DownLeft
        } else {
            Direction::Left
        }
    }

    /// The direction with the given position in the listing order.
    pub fn from_index(i: usize) -> (d: Direction)
        ensures
            d == Direction::at(i as int),
    {
        if i == 0 {
            Direction::UpLeft
        } else if i == 1 {
            Direction::UpRight
        } else if i == 2 {
            Direction::Right
        } else if i == 3 {
            Direction::DownRight
        } else if i == 4 {
            Direction::DownLeft
        } else {
            Direction::Left
        }
    }
}

/// What stands on each cell.
pub type Hexes = [Option<(Player, Piece)>; HEX_COUNT];

/// What stands on each cell, as a sequence of length 91.
pub type Cells = Seq<Option<(Player, Piece)>>;

/// The positional data: who is to move, what stands where, and how many
/// pieces attack each cell.
pub struct Board {
    pub current_turn: Player,
    pub hexes: Hexes,
    pub threats: [u8; HEX_COUNT],
}

/// An index that names no cell of the board.
#[derive(Clone, Copy, Debug, PartialEq, Eq, Structural)]
pub struct OutOfRange {
    pub hex: usize,
}

// ---------------------------------------------------------------------------
// The coordinate model
// ---------------------------------------------------------------------------

/// Number of cells in a rank.
pub open spec fn rank_len(rank: int) -> int {
    if rank <= 5 {
        6 + rank
    } else {
        16 - rank
    }
}

/// Index of the first cell of a rank: the number of cells in the ranks above.
pub open spec fn rank_start(rank: int) -> int {
    if rank <= 0 {
        0
    } else if rank == 1 {
        6
    } else if rank == 2 {
        13
    } else if rank == 3 {
        21
    } else if rank == 4 {
        30
    } else if rank == 5 {
        40
    } else if rank == 6 {
        51
    } else if rank == 7 {
        61
    } else if rank == 8 {
        70
    } else if rank == 9 {
        78
    } else if rank == 10 {
        85
    } else {
        91
    }
}

/// The rank that holds a cell.
pub open spec fn rank_of(hex: int) -> int {
    if hex < 6 {
        0
    } else if hex < 13 {
        1
    } else if hex < 21 {
        2
    } else if hex < 30 {
        3
    } else if hex < 40 {
        4
    } else if hex < 51 {
        5
    } else if hex < 61 {
        6
    } else if hex < 70 {
        7
    } else if hex < 78 {
        8
    } else if hex < 85 {
        9
    } else {
        10
    }
}

/// Position of a cell within its rank.
pub open spec fn file_of(hex: int) -> int {
    hex - rank_start(rank_of(hex))
}

/// The index of the cell with the given coordinates.
pub open spec fn hex_at(rank: int, file: int) -> int {
    rank_start(rank) + file
}

/// The cell with the given coordinates, if the board has one.
pub open spec fn cell(rank: int, file: int) -> Option<usize> {
    if 0 <= rank <= 10 && 0 <= file < rank_len(rank) {
        Some(hex_at(rank, file) as usize)
    } else {
        None
    }
}

/// Change of rank made by one step in a direction.
pub open spec fn rank_shift(d: Direction) -> int {
    match d {
        Direction::UpLeft | Direction::UpRight => -1,
        Direction::Right | Direction::Left => 0,
        Direction::DownRight | Direction::DownLeft => 1,
    }
}

/// Change of file made by one step in a direction from a cell of the given
/// rank. Ranks grow by one cell down to the middle rank and shrink by one
/// after it, so the file of an upper or lower neighbour depends on the half of
/// the board.
pub open spec fn file_shift(d: Direction, rank: int) -> int {
    match d {
        Direction::UpLeft => if rank <= 5 { -1 } else { 0 },
        Direction::UpRight => if rank <= 5 { 0 } else { 1 },
        Direction::Right => 1,
        Direction::DownRight => if rank < 5 { 1 } else { 0 },
        Direction::DownLeft => if rank < 5 { 0 } else { -1 },
        Direction::Left => -1,
    }
}

/// The neighbour of a cell in a direction, if the board has one.
pub open spec fn neighbor(d: Direction, hex: usize) -> Option<usize> {
    let r = rank_of(hex as int);
    let f = file_of(hex as int);
    cell(r + rank_shift(d), f + file_shift(d, r))
}

/// The cell itself, where the flag holds.
pub open spec fn keep_if(o: Option<usize>, keep: bool) -> Option<usize> {
    if keep {
        o
    } else {
        None
    }
}

/// The cells that are present among `f(0)`, ..., `f(n - 1)`, in that order.
pub open spec fn present(f: spec_fn(int) -> Option<usize>, n: nat) -> Seq<usize>
    decreases n,
{
    if n == 0 {
        Seq::empty()
    } else {
        match f(n - 1) {
            Some(h) => present(f, (n - 1) as nat).push(h),
            None => present(f, (n - 1) as nat),
        }
    }
}

/// The neighbour of a cell in each direction, by the position of the
/// direction in the listing order.
pub open spec fn neighbor_choice(hex: usize) -> spec_fn(int) -> Option<usize> {
    |i: int| neighbor(Direction::at(i), hex)
}

/// All neighbours of a cell, in the listing order of the directions.
pub open spec fn neighbors(hex: usize) -> Seq<usize> {
    present(neighbor_choice(hex), 6)
}

// ---------------------------------------------------------------------------
// Laws of the topology
// ---------------------------------------------------------------------------

/// Every cell of the board has coordinates within the board, and the cell at
/// those coordinates is the cell itself.
pub proof fn lemma_coordinates_round_trip(hex: usize)
    requires
        hex < HEX_COUNT,
    ensures
        0 <= rank_of(hex as int) <= 10,
        0 <= file_of(hex as int) < rank_len(rank_of(hex as int)),
        hex_at(rank_of(hex as int), file_of(hex as int)) == hex,
        cell(rank_of(hex as int), file_of(hex as int)) == Some(hex),
{
}

/// Coordinates within the board name a cell of the board, and that cell has
/// exactly those coordinates.
pub proof fn lemma_cell_coordinates(rank: int, file: int)
    requires
        0 <= rank <= 10,
        0 <= file < rank_len(rank),
    ensures
        0 <= hex_at(rank, file) < HEX_COUNT,
        rank_of(hex_at(rank, file)) == rank,
        file_of(hex_at(rank, file)) == file,
        rank_start(rank + 1) == rank_start(rank) + rank_len(rank),
{
}

/// A neighbour is a cell of the board, and it is not the cell itself.
pub proof fn lemma_neighbor_in_range(d: Direction, hex: usize)
    requires
        hex < HEX_COUNT,
    ensures
        neighbor(d, hex) matches Some(n) ==> n < HEX_COUNT && n != hex,
{
}

/// Adjacency is symmetric: if `b` is the neighbour of `a` in a direction, then
/// `a` is the neighbour of `b` in the reverse direction.
pub proof fn lemma_adjacency_symmetric(d: Direction, a: usize, b: usize)
    requires
        a < HEX_COUNT,
        neighbor(d, a) == Some(b),
    ensures
        b < HEX_COUNT,
        neighbor(d.reverse(), b) == Some(a),
{
    let r = rank_of(a as int);
    let f = file_of(a as int);
    lemma_coordinates_round_trip(a);
    lemma_cell_coordinates(r + rank_shift(d), f + file_shift(d, r));
}

/// Position of a cell along its rank, counted so that a step up and to the
/// left, or down and to the right, keeps it.
pub open spec fn axis_of(hex: int) -> int {
    file_of(hex) + if rank_of(hex) <= 5 {
        5 - rank_of(hex)
    } else {
        0
    }
}

/// Change of the position along the rank made by one step in a direction.
pub open spec fn axis_shift(d: Direction) -> int {
    match d {
        Direction::UpLeft | Direction::DownRight => 0,
        Direction::UpRight | Direction::Right => 1,
        Direction::DownLeft | Direction::Left => -1,
    }
}

/// A step in a direction changes the rank and the position along the rank
/// by amounts that depend on the direction alone.
pub proof fn lemma_step_coordinates(d: Direction, a: usize)
    requires
        a < HEX_COUNT,
    ensures
        neighbor(d, a) matches Some(b) ==> b < HEX_COUNT && rank_of(b as int) == rank_of(a as int)
            + rank_shift(d) && axis_of(b as int) == axis_of(a as int) + axis_shift(d),
{
    let r = rank_of(a as int);
    let f = file_of(a as int);
    lemma_coordinates_round_trip(a);
    if neighbor(d, a) is Some {
        lemma_cell_coordinates(r + rank_shift(d), f + file_shift(d, r));
    }
}

/// Two cells with the same rank and the same position along it are one cell.
pub proof fn lemma_coordinates_decide(a: usize, b: usize)
    requires
        a < HEX_COUNT,
        b < HEX_COUNT,
        rank_of(a as int) == rank_of(b as int),
        axis_of(a as int) == axis_of(b as int),
    ensures
        a == b,
{
}

// ---------------------------------------------------------------------------
// Executable topology
// ---------------------------------------------------------------------------

/// Accepts an index that names a cell of the board and rejects any other.
pub fn validate_hex(hex: usize) -> (r: Result<usize, OutOfRange>)
    ensures
        hex < HEX_COUNT ==> r == Ok::<usize, OutOfRange>(hex),
        hex >= HEX_COUNT ==> r == Err::<usize, OutOfRange>(OutOfRange { hex }),
{
    if hex < HEX_COUNT {
        Ok(hex)
    } else {
        Err(OutOfRange { hex })
    }
}

/// Number of cells in a rank.
pub fn rank_length(rank: usize) -> (len: usize)
    requires
        rank < RANK_COUNT,
    ensures
        len == rank_len(rank as int),
{
    if rank <= 5 {
        6 + rank
    } else {
        16 - rank
    }
}

/// The rank that holds a cell.
pub fn get_rank(hex: usize) -> (rank: usize)
    requires
        hex < HEX_COUNT,
    ensures
        rank == rank_of(hex as int),
        rank < RANK_COUNT,
{
    let mut cursor: usize = hex;
    let mut rank: usize = 0;
    while cursor >= rank_length(rank)
        invariant
            rank <= 10,
            cursor + rank_start(rank as int) == hex,
            hex < HEX_COUNT,
            rank <= rank_of(hex as int),
        decreases 10 - rank,
    {
        cursor -= rank_length(rank);
        rank += 1;
    }
    rank
}

/// Position of a cell within its rank.
pub fn get_file(hex: usize) -> (file: usize)
    requires
        hex < HEX_COUNT,
    ensures
        file == file_of(hex as int),
        file < rank_len(rank_of(hex as int)),
{
    let mut cursor: usize = hex;
    let mut rank: usize = 0;
    while cursor >= rank_length(rank)
        invariant
            rank <= 10,
            cursor + rank_start(rank as int) == hex,
            hex < HEX_COUNT,
            rank <= rank_of(hex as int),
        decreases 10 - rank,
    {
        cursor -= rank_length(rank);
        rank += 1;
    }
    cursor
}

/// Whether a cell is the first of its rank.
pub fn on_left_edge(hex: usize) -> (b: bool)
    requires
        hex < HEX_COUNT,
    ensures
        b == (file_of(hex as int) == 0),
{
    let file = get_file(hex);
    file == 0
}

/// Whether a cell is the last of its rank.
pub fn on_right_edge(hex: usize) -> (b: bool)
    requires
        hex < HEX_COUNT,
    ensures
        b == (file_of(hex as int) == rank_len(rank_of(hex as int)) - 1),
{
    let file = get_file(hex);
    let rank = get_rank(hex);
    file == rank_length(rank) - 1
}

/// Whether a cell lies in the top rank.
pub fn on_top_rank(hex: usize) -> (b: bool)
    requires
        hex < HEX_COUNT,
    ensures
        b == (rank_of(hex as int) == 0),
{
    get_rank(hex) == 0
}

/// Whether a cell lies in the bottom rank.
pub fn on_bottom_rank(hex: usize) -> (b: bool)
    requires
        hex < HEX_COUNT,
    ensures
        b == (rank_of(hex as int) == 10),
{
    get_rank(hex) == 10
}

/// The cell at the given coordinates, if the file lies within the rank.
pub fn cell_at(rank: usize, file: usize) -> (r: Option<usize>)
    requires
        rank < RANK_COUNT,
    ensures
        r == cell(rank as int, file as int),
{
    if file >= rank_length(rank) {
        return None;
    }
    let mut start: usize = 0;
    let mut i: usize = 0;
    while i < rank
        invariant
            i <= rank,
            rank < RANK_COUNT,
            start == rank_start(i as int),
        decreases rank - i,
    {
        start += rank_length(i);
        i += 1;
    }
    Some(start + file)
}

/// The neighbour to the left, in the same rank.
pub fn left(hex: usize) -> (r: Option<usize>)
    requires
        hex < HEX_COUNT,
    ensures
        r == neighbor(Direction::Left, hex),
{
    if on_left_edge(hex) {
        return None;
    }
    Some(hex - 1)
}

/// The neighbour to the right, in the same rank.
pub fn right(hex: usize) -> (r: Option<usize>)
    requires
        hex < HEX_COUNT,
    ensures
        r == neighbor(Direction::Right, hex),
{
    if on_right_edge(hex) {
        return None;
    }
    Some(hex + 1)
}

/// The neighbour up and to the left, in the rank above.
pub fn up_left(hex: usize) -> (r: Option<usize>)
    requires
        hex < HEX_COUNT,
    ensures
        r == neighbor(Direction::UpLeft, hex),
{
    let rank = get_rank(hex);
    let file = get_file(hex);
    if rank == 0 {
        None
    } else if rank <= 5 {
        if file == 0 {
            None
        } else {
            cell_at(rank - 1, file - 1)
        }
    } else {
        cell_at(rank - 1, file)
    }
}

/// The neighbour up and to the right, in the rank above.
pub fn up_right(hex: usize) -> (r: Option<usize>)
    requires
        hex < HEX_COUNT,
    ensures
        r == neighbor(Direction::UpRight, hex),
{
    let rank = get_rank(hex);
    let file = get_file(hex);
    if rank == 0 {
        None
    } else if rank <= 5 {
        cell_at(rank - 1, file)
    } else {
        cell_at(rank - 1, file + 1)
    }
}

/// The neighbour down and to the left, in the rank below.
pub fn down_left(hex: usize) -> (r: Option<usize>)
    requires
        hex < HEX_COUNT,
    ensures
        r == neighbor(Direction::DownLeft, hex),
{
    let rank = get_rank(hex);
    let file = get_file(hex);
    if rank >= 10 {
        None
    } else if rank < 5 {
        cell_at(rank + 1, file)
    } else if file == 0 {
        None
    } else {
        cell_at(rank + 1, file - 1)
    }
}

/// The neighbour down and to the right, in the rank below.
pub fn down_right(hex: usize) -> (r: Option<usize>)
    requires
        hex < HEX_COUNT,
    ensures
        r == neighbor(Direction::DownRight, hex),
{
    let rank = get_rank(hex);
    let file = get_file(hex);
    if rank >= 10 {
        None
    } else if rank < 5 {
        cell_at(rank + 1, file + 1)
    } else {
        cell_at(rank + 1, file)
    }
}

/// The neighbour in a given direction.
pub fn step(d: Direction, hex: usize) -> (r: Option<usize>)
    requires
        hex < HEX_COUNT,
    ensures
        r == neighbor(d, hex),
        r matches Some(n) ==> n < HEX_COUNT,
{
    proof {
        lemma_neighbor_in_range(d, hex);
    }
    match d {
        Direction::UpLeft => up_left(hex),
        Direction::UpRight => up_right(hex),
        Direction::Right => right(hex),
        Direction::DownRight => down_right(hex),
        Direction::DownLeft => down_left(hex),
        Direction::Left => left(hex),
    }
}

/// All neighbours of a cell, in the order up-left, up-right, right,
/// down-right, down-left, left.
pub fn adjacent(hex: usize) -> (out: Vec<usize>)
    requires
        hex < HEX_COUNT,
    ensures
        out@ == neighbors(hex),
        out@.len() <= 6,
        forall|k: int| 0 <= k < out@.len() ==> out@[k] < HEX_COUNT,
{
    let ghost f = neighbor_choice(hex);
    let mut out: Vec<usize> = Vec::new();
    let mut i: usize = 0;
    while i < 6
        invariant
            i <= 6,
            hex < HEX_COUNT,
            f == neighbor_choice(hex),
            out@ == present(f, i as nat),
            out@.len() <= i,
            forall|k: int| 0 <= k < out@.len() ==> out@[k] < HEX_COUNT,
        decreases 6 - i,
    {
        if let Some(n) = step(Direction::from_index(i), hex) {
            out.push(n);
        }
        i += 1;
    }
    out
}

// ---------------------------------------------------------------------------
// Occupancy
// ---------------------------------------------------------------------------

/// No piece stands on the cell.
pub open spec fn vacant(cells: Cells, hex: usize) -> bool {
    cells[hex as int] is None
}

/// A piece of the given player stands on the cell.
pub open spec fn held_by(cells: Cells, hex: usize, player: Player) -> bool {
    match cells[hex as int] {
        Some((owner, _)) => owner == player,
        None => false,
    }
}

/// Whether a white piece stands on the cell.
pub fn has_white_piece(hexes: Hexes, hex: usize) -> (b: bool)
    requires
        hex < HEX_COUNT,
    ensures
        b == held_by(hexes@, hex, Player::White),
{
    match hexes[hex] {
        Some((Player::White, _)) => true,
        _ => false,
    }
}

/// Whether a black piece stands on the cell.
pub fn has_black_piece(hexes: Hexes, hex: usize) -> (b: bool)
    requires
        hex < HEX_COUNT,
    ensures
        b == held_by(hexes@, hex, Player::Black),
{
    match hexes[hex] {
        Some((Player::Black, _)) => true,
        _ => false,
    }
}

/// Whether a piece of the given player stands on the cell.
pub fn has_colored_piece(hexes: Hexes, hex: usize, color: Player) -> (b: bool)
    requires
        hex < HEX_COUNT,
    ensures
        b == held_by(hexes@, hex, color),
{
    match hexes[hex] {
        Some((c, _)) => c == color,
        None => false,
    }
}

/// The cells on which a pawn of the given player becomes a queen: the rank
/// farthest from the player's own side.
pub open spec fn queening_zone(hex: usize, player: Player) -> bool {
    match player {
        Player::White => hex <= 5,
        Player::Black => 85 <= hex <= 90,
    }
}

/// Whether a pawn of the given player is promoted on reaching the cell.
pub fn is_queening_hex(hex: usize, player: Player) -> (b: bool)
    ensures
        b == queening_zone(hex, player),
{
    match player {
        Player::White => hex <= 5,
        Player::Black => 85 <= hex && hex <= 90,
    }
}

// ---------------------------------------------------------------------------
// Initial placement
// ---------------------------------------------------------------------------

/// What the initial placement puts on a cell. The placement lists the pieces
/// of one side by cell, for the cells before the middle one; Black gets them
/// as listed and White gets the mirror image, at `90 - hex`. The middle cell
/// stays empty.
pub open spec fn placed(placement: Map<usize, Piece>, hex: int) -> Option<(Player, Piece)> {
    if 0 <= hex < 45 && placement.contains_key(hex as usize) {
        Some((Player::Black, placement[hex as usize]))
    } else if 45 < hex <= 90 && placement.contains_key((90 - hex) as usize) {
        Some((Player::White, placement[(90 - hex) as usize]))
    } else {
        None
    }
}

/// Sets up both sides from a placement of one side.
pub fn place_pieces(placement: &HashMap<usize, Piece>) -> (hexes: Hexes)
    ensures
        forall|h: int| 0 <= h < HEX_COUNT ==> hexes@[h] == placed(placement@, h),
{
    broadcast use vstd::std_specs::hash::group_hash_axioms;

    let mut pieces: Hexes = [None;HEX_COUNT];
    let mut idx: usize = 0;
    while idx < HEX_COUNT / 2
        invariant
            idx <= 45,
            forall|h: int| 0 <= h < idx ==> pieces@[h] == placed(placement@, h),
            forall|h: int| 90 - idx < h <= 90 ==> pieces@[h] == placed(placement@, h),
            forall|h: int| idx <= h <= 90 - idx ==> pieces@[h] is None,
        decreases 45 - idx,
    {
        match placement.get(&idx) {
            Some(piece) => {
                pieces[idx] = Some((Player::Black, *piece));
                pieces[HEX_COUNT - idx - 1] = Some((Player::White, *piece));
            },
            None => {},
        }
        idx += 1;
    }
    pieces
}

impl Board {
    /// The board at the start of a game: the pieces as placed, White to move,
    /// and the attackers of each cell counted.
    pub fn new(placement: &HashMap<usize, Piece>) -> (b: Board)
        ensures
            b.current_turn == Player::White,
            forall|h: int| 0 <= h < HEX_COUNT ==> b.hexes@[h] == placed(placement@, h),
            crate::logic::counts_match(b.hexes@, b.threats@),
    {
        let mut b = Board {
            current_turn: Player::White,
            hexes: place_pieces(placement),
            threats: [0;HEX_COUNT],
        };
        let threats = crate::logic::count_threats(&b);
        b.threats = threats;
        b
    }
}

} // verus!
