//! Move generation for the seven kinds of piece, and the count of attackers
//! of each cell.

use vstd::prelude::*;
use crate::board::{
    file_of, file_shift, has_colored_piece, held_by, keep_if, neighbor, present, rank_of,
    rank_shift, step, vacant, Board, Cells, Direction, Hexes, Player, HEX_COUNT,
};
use crate::laws::{lemma_attacked_once, lemma_attacks_bounded, lemma_occurrences_take};
use crate::pieces::Piece;

verus! {

// ---------------------------------------------------------------------------
// The model of a move
// ---------------------------------------------------------------------------

/// A piece of `color` may step or slide onto a cell that is empty or holds a
/// piece of the other side.
pub open spec fn admissible(cells: Cells, color: Player, hex: usize) -> bool {
    vacant(cells, hex) || held_by(cells, hex, color.spec_opposite())
}

/// The cell, if there is one and a piece of `color` may land on it.
pub open spec fn landing(cells: Cells, color: Player, o: Option<usize>) -> Option<usize> {
    match o {
        Some(h) => keep_if(o, admissible(cells, color, h)),
        None => None,
    }
}

/// The cell, if there is one and it is empty.
pub open spec fn resting(cells: Cells, o: Option<usize>) -> Option<usize> {
    match o {
        Some(h) => keep_if(o, vacant(cells, h)),
        None => None,
    }
}

/// How far a slide in a direction can still go: a bound that every step
/// lowers.
pub open spec fn travel(d: Direction, hex: usize) -> int {
    match d {
        Direction::UpLeft | Direction::UpRight | Direction::Left => hex as int,
        Direction::Right | Direction::DownRight | Direction::DownLeft => HEX_COUNT - hex,
    }
}

/// The cells that a slide from `from` in direction `d` reaches: the empty
/// cells up to the first occupied one, and that one too if it holds a piece
/// of the other side.
pub open spec fn ray(cells: Cells, color: Player, d: Direction, from: usize) -> Seq<usize>
    decreases travel(d, from),
    when from < HEX_COUNT
{
    match neighbor(d, from) {
        Some(h) => {
            if vacant(cells, h) {
                seq![h] + ray(cells, color, d, h)
            } else if held_by(cells, h, color.spec_opposite()) {
                seq![h]
            } else {
                Seq::empty()
            }
        },
        None => Seq::empty(),
    }
}

/// The twelve compositions of two steps that lead to the cells at distance
/// two, going around the cell.
pub open spec fn two_step(i: int) -> (Direction, Direction) {
    if i <= 0 {
        (Direction::Left, Direction::UpLeft)
    } else if i == 1 {
        (Direction::UpLeft, Direction::UpLeft)
    } else if i == 2 {
        (Direction::UpRight, Direction::UpLeft)
    } else if i == 3 {
        (Direction::UpRight, Direction::UpRight)
    } else if i == 4 {
        (Direction::UpRight, Direction::Right)
    } else if i == 5 {
        (Direction::Right, Direction::Right)
    } else if i == 6 {
        (Direction::Right, Direction::DownRight)
    } else if i == 7 {
        (Direction::DownRight, Direction::DownRight)
    } else if i == 8 {
        (Direction::DownRight, Direction::DownLeft)
    } else if i == 9 {
        (Direction::DownLeft, Direction::DownLeft)
    } else if i == 10 {
        (Direction::DownLeft, Direction::Left)
    } else {
        (Direction::Left, Direction::Left)
    }
}

/// The cell reached by a step in direction `a` and then one in direction `b`.
pub open spec fn jump(a: Direction, b: Direction, hex: usize) -> Option<usize> {
    match neighbor(a, hex) {
        Some(t) => neighbor(b, t),
        None => None,
    }
}

/// The cell reached by two steps, where both the cell between and the cell
/// reached are empty.
pub open spec fn quiet_jump(cells: Cells, a: Direction, b: Direction, hex: usize) -> Option<usize> {
    match resting(cells, neighbor(a, hex)) {
        Some(t) => resting(cells, neighbor(b, t)),
        None => None,
    }
}

/// The cell at distance two to which a fortress may walk over empty cells:
/// by the two steps in the listed order if that way is free, else in the
/// other order.
pub open spec fn detour(cells: Cells, a: Direction, b: Direction, hex: usize) -> Option<usize> {
    match quiet_jump(cells, a, b, hex) {
        Some(t) => Some(t),
        None => quiet_jump(cells, b, a, hex),
    }
}

pub open spec fn king_choice(cells: Cells, color: Player, hex: usize) -> spec_fn(int) -> Option<
    usize,
> {
    |i: int| landing(cells, color, neighbor(Direction::at(i), hex))
}

pub open spec fn knight_choice(cells: Cells, color: Player, hex: usize) -> spec_fn(int) -> Option<
    usize,
> {
    |i: int| landing(cells, color, jump(two_step(i).0, two_step(i).1, hex))
}

pub open spec fn short_walk_choice(cells: Cells, hex: usize) -> spec_fn(int) -> Option<usize> {
    |i: int| resting(cells, neighbor(Direction::at(i), hex))
}

pub open spec fn long_walk_choice(cells: Cells, hex: usize) -> spec_fn(int) -> Option<usize> {
    |i: int| detour(cells, two_step(i).0, two_step(i).1, hex)
}

/// Destinations of a king: the neighbours on which it may land.
pub open spec fn king_moves(cells: Cells, hex: usize) -> Seq<usize> {
    match cells[hex as int] {
        Some((color, _)) => present(king_choice(cells, color, hex), 6),
        None => Seq::empty(),
    }
}

/// Destinations of a knight: the ends of the twelve compositions on which it
/// may land. The cell between does not matter.
pub open spec fn knight_moves(cells: Cells, hex: usize) -> Seq<usize> {
    match cells[hex as int] {
        Some((color, _)) => present(knight_choice(cells, color, hex), 12),
        None => Seq::empty(),
    }
}

/// Destinations of a queen: the slides in all six directions.
pub open spec fn queen_moves(cells: Cells, hex: usize) -> Seq<usize> {
    match cells[hex as int] {
        Some((color, _)) => ray(cells, color, Direction::UpLeft, hex) + ray(
            cells,
            color,
            Direction::UpRight,
            hex,
        ) + ray(cells, color, Direction::Right, hex) + ray(cells, color, Direction::DownRight, hex)
            + ray(cells, color, Direction::DownLeft, hex) + ray(cells, color, Direction::Left, hex),
        None => Seq::empty(),
    }
}

/// Destinations of a bishop: the slides in the four directions that change
/// rank.
pub open spec fn bishop_moves(cells: Cells, hex: usize) -> Seq<usize> {
    match cells[hex as int] {
        Some((color, _)) => ray(cells, color, Direction::UpLeft, hex) + ray(
            cells,
            color,
            Direction::UpRight,
            hex,
        ) + ray(cells, color, Direction::DownRight, hex) + ray(
            cells,
            color,
            Direction::DownLeft,
            hex,
        ),
        None => Seq::empty(),
    }
}

/// Destinations of a fortress: those of a king, then the empty neighbours
/// once more, then for each of the twelve compositions the cell that it can
/// walk to over empty cells.
pub open spec fn fortress_moves(cells: Cells, hex: usize) -> Seq<usize> {
    match cells[hex as int] {
        Some(_) => king_moves(cells, hex) + present(short_walk_choice(cells, hex), 6) + present(
            long_walk_choice(cells, hex),
            12,
        ),
        None => Seq::empty(),
    }
}

/// One branch of a general's move: a step in direction `fst`, which may
/// capture, and from an empty cell a slide in direction `snd`.
pub open spec fn general_branch(
    cells: Cells,
    color: Player,
    fst: Direction,
    snd: Direction,
    hex: usize,
) -> Seq<usize> {
    match neighbor(fst, hex) {
        Some(one) => {
            if held_by(cells, one, color.spec_opposite()) {
                seq![one]
            } else if vacant(cells, one) {
                seq![one] + ray(cells, color, snd, one)
            } else {
                Seq::empty()
            }
        },
        None => Seq::empty(),
    }
}

/// Destinations of a general: its four branches.
pub open spec fn general_moves(cells: Cells, hex: usize) -> Seq<usize> {
    match cells[hex as int] {
        Some((color, _)) => general_branch(cells, color, Direction::UpLeft, Direction::Left, hex)
            + general_branch(cells, color, Direction::UpRight, Direction::Right, hex)
            + general_branch(cells, color, Direction::DownRight, Direction::Right, hex)
            + general_branch(cells, color, Direction::DownLeft, Direction::Left, hex),
        None => Seq::empty(),
    }
}

/// The direction in which a pawn advances to the left.
pub open spec fn forward_left(color: Player) -> Direction {
    match color {
        Player::White => Direction::UpLeft,
        Player::Black => Direction::DownLeft,
    }
}

/// The direction in which a pawn advances to the right.
pub open spec fn forward_right(color: Player) -> Direction {
    match color {
        Player::White => Direction::UpRight,
        Player::Black => Direction::DownRight,
    }
}

/// The cell straight ahead of a pawn, two ranks on: open to it only if both
/// cells diagonally ahead and the cell itself are empty.
pub open spec fn pawn_advance(cells: Cells, color: Player, hex: usize) -> Option<usize> {
    if resting(cells, neighbor(forward_left(color), hex)) is Some && resting(
        cells,
        neighbor(forward_right(color), hex),
    ) is Some {
        resting(cells, jump(forward_right(color), forward_left(color), hex))
    } else {
        None
    }
}

pub open spec fn pawn_choice(cells: Cells, color: Player, hex: usize) -> spec_fn(int) -> Option<
    usize,
> {
    |i: int|
        if i <= 0 {
            landing(cells, color, neighbor(forward_left(color), hex))
        } else if i == 1 {
            landing(cells, color, neighbor(forward_right(color), hex))
        } else {
            pawn_advance(cells, color, hex)
        }
}

/// Destinations of a pawn: the two cells diagonally ahead on which it may
/// land, then the cell straight ahead.
pub open spec fn pawn_moves(cells: Cells, hex: usize) -> Seq<usize> {
    match cells[hex as int] {
        Some((color, _)) => present(pawn_choice(cells, color, hex), 3),
        None => Seq::empty(),
    }
}

/// The destinations of the piece on a cell, before the rule on fortresses is
/// applied. An empty cell has none.
pub open spec fn legal_destinations(cells: Cells, hex: usize) -> Seq<usize> {
    match cells[hex as int] {
        Some((_, Piece::King)) => king_moves(cells, hex),
        Some((_, Piece::Queen)) => queen_moves(cells, hex),
        Some((_, Piece::Knight)) => knight_moves(cells, hex),
        Some((_, Piece::Bishop)) => bishop_moves(cells, hex),
        Some((_, Piece::Fortress)) => fortress_moves(cells, hex),
        Some((_, Piece::General)) => general_moves(cells, hex),
        Some((_, Piece::Pawn)) => pawn_moves(cells, hex),
        None => Seq::empty(),
    }
}

/// Every listed cell is a cell of the board.
pub open spec fn on_board(s: Seq<usize>) -> bool {
    forall|k: int| 0 <= k < s.len() ==> #[trigger] s[k] < HEX_COUNT
}

// ---------------------------------------------------------------------------
// Executable helpers
// ---------------------------------------------------------------------------

/// The order in which the twelve compositions of two steps are tried.
pub fn two_step_pair(i: usize) -> (p: (Direction, Direction))
    ensures
        p == two_step(i as int),
{
    if i == 0 {
        (Direction::Left, Direction::UpLeft)
    } else if i == 1 {
        (Direction::UpLeft, Direction::UpLeft)
    } else if i == 2 {
        (Direction::UpRight, Direction::UpLeft)
    } else if i == 3 {
        (Direction::UpRight, Direction::UpRight)
    } else if i == 4 {
        (Direction::UpRight, Direction::Right)
    } else if i == 5 {
        (Direction::Right, Direction::Right)
    } else if i == 6 {
        (Direction::Right, Direction::DownRight)
    } else if i == 7 {
        (Direction::DownRight, Direction::DownRight)
    } else if i == 8 {
        (Direction::DownRight, Direction::DownLeft)
    } else if i == 9 {
        (Direction::DownLeft, Direction::DownLeft)
    } else if i == 10 {
        (Direction::DownLeft, Direction::Left)
    } else {
        (Direction::Left, Direction::Left)
    }
}

fn is_vacant(hexes: &Hexes, hex: usize) -> (b: bool)
    requires
        hex < HEX_COUNT,
    ensures
        b == vacant(hexes@, hex),
{
    hexes[hex].is_none()
}

fn is_admissible(hexes: &Hexes, color: Player, hex: usize) -> (b: bool)
    requires
        hex < HEX_COUNT,
    ensures
        b == admissible(hexes@, color, hex),
{
    hexes[hex].is_none() || has_colored_piece(*hexes, hex, color.opposite())
}

fn land(hexes: &Hexes, color: Player, o: Option<usize>) -> (r: Option<usize>)
    requires
        o matches Some(h) ==> h < HEX_COUNT,
    ensures
        r == landing(hexes@, color, o),
        r matches Some(h) ==> h < HEX_COUNT,
{
    match o {
        Some(h) => if is_admissible(hexes, color, h) {
            o
        } else {
            None
        },
        None => None,
    }
}

fn rest(hexes: &Hexes, o: Option<usize>) -> (r: Option<usize>)
    requires
        o matches Some(h) ==> h < HEX_COUNT,
    ensures
        r == resting(hexes@, o),
        r matches Some(h) ==> h < HEX_COUNT,
{
    match o {
        Some(h) => if is_vacant(hexes, h) {
            o
        } else {
            None
        },
        None => None,
    }
}

fn two_steps(a: Direction, b: Direction, hex: usize) -> (r: Option<usize>)
    requires
        hex < HEX_COUNT,
    ensures
        r == jump(a, b, hex),
        r matches Some(h) ==> h < HEX_COUNT,
{
    match step(a, hex) {
        Some(t) => step(b, t),
        None => None,
    }
}

fn quiet_two_steps(hexes: &Hexes, a: Direction, b: Direction, hex: usize) -> (r: Option<usize>)
    requires
        hex < HEX_COUNT,
    ensures
        r == quiet_jump(hexes@, a, b, hex),
        r matches Some(h) ==> h < HEX_COUNT,
{
    match rest(hexes, step(a, hex)) {
        Some(t) => rest(hexes, step(b, t)),
        None => None,
    }
}

/// Slides from `from` in direction `d` and appends the cells reached.
fn slide(hexes: &Hexes, color: Player, d: Direction, from: usize, out: &mut Vec<usize>)
    requires
        from < HEX_COUNT,
        on_board(old(out)@),
    ensures
        final(out)@ == old(out)@ + ray(hexes@, color, d, from),
        on_board(final(out)@),
{
    let ghost goal = out@ + ray(hexes@, color, d, from);
    let mut c: usize = from;
    let mut sliding: bool = true;
    while sliding
        invariant
            c < HEX_COUNT,
            on_board(out@),
            sliding ==> out@ + ray(hexes@, color, d, c) == goal,
            !sliding ==> out@ == goal,
            0 <= travel(d, c),
        decreases travel(d, c) + if sliding { 1int } else { 0int },
    {
        proof {
            lemma_step_travels(d, c);
        }
        let ghost before = out@;
        match step(d, c) {
            Some(h) => {
                if is_vacant(hexes, h) {
                    out.push(h);
                    proof {
                        assert(out@ + ray(hexes@, color, d, h) =~= before + (seq![h] + ray(
                            hexes@,
                            color,
                            d,
                            h,
                        )));
                    }
                    c = h;
                } else if has_colored_piece(*hexes, h, color.opposite()) {
                    out.push(h);
                    proof {
                        assert(out@ =~= before + seq![h]);
                    }
                    c = h;
                    sliding = false;
                } else {
                    proof {
                        assert(out@ =~= before + Seq::<usize>::empty());
                    }
                    sliding = false;
                }
            },
            None => {
                proof {
                    assert(out@ =~= before + Seq::<usize>::empty());
                }
                sliding = false;
            },
        }
    }
}

/// A step in a direction lands on the board and lowers the bound on the
/// slide.
pub proof fn lemma_step_travels(d: Direction, hex: usize)
    requires
        hex < HEX_COUNT,
    ensures
        neighbor(d, hex) matches Some(h) ==> h < HEX_COUNT && 0 <= travel(d, h) < travel(d, hex),
{
    crate::board::lemma_coordinates_round_trip(hex);
    let r = rank_of(hex as int);
    let f = file_of(hex as int);
    if neighbor(d, hex) is Some {
        crate::board::lemma_cell_coordinates(r + rank_shift(d), f + file_shift(d, r));
    }
}

// ---------------------------------------------------------------------------
// Move generation
// ---------------------------------------------------------------------------

/// Appends the cell, if there is one.
fn push_present(out: &mut Vec<usize>, o: Option<usize>)
    requires
        on_board(old(out)@),
        o matches Some(h) ==> h < HEX_COUNT,
    ensures
        final(out)@ == match o {
            Some(h) => old(out)@.push(h),
            None => old(out)@,
        },
        on_board(final(out)@),
{
    if let Some(h) = o {
        out.push(h);
    }
}

/// Destinations of a king on `hex`: one step to a neighbour that is empty or
/// holds a piece of the other side.
pub fn get_king_moves(hexes: Hexes, hex: usize) -> (out: Vec<usize>)
    requires
        hex < HEX_COUNT,
    ensures
        out@ == king_moves(hexes@, hex),
        on_board(out@),
{
    let mut out: Vec<usize> = Vec::new();
    if let Some((color, _)) = hexes[hex] {
        let ghost choice = king_choice(hexes@, color, hex);
        let mut i: usize = 0;
        while i < 6
            invariant
                i <= 6,
                hex < HEX_COUNT,
                choice == king_choice(hexes@, color, hex),
                out@ == present(choice, i as nat),
                on_board(out@),
            decreases 6 - i,
        {
            let o = land(&hexes, color, step(Direction::from_index(i), hex));
            push_present(&mut out, o);
            i += 1;
        }
    }
    out
}

/// Destinations of a knight on `hex`: the ends of the twelve compositions of
/// two steps, where both steps exist and the end is empty or holds a piece of
/// the other side.
pub fn get_knight_moves(hexes: Hexes, hex: usize) -> (out: Vec<usize>)
    requires
        hex < HEX_COUNT,
    ensures
        out@ == knight_moves(hexes@, hex),
        on_board(out@),
{
    let mut out: Vec<usize> = Vec::new();
    if let Some((color, _)) = hexes[hex] {
        let ghost choice = knight_choice(hexes@, color, hex);
        let mut i: usize = 0;
        while i < 12
            invariant
                i <= 12,
                hex < HEX_COUNT,
                choice == knight_choice(hexes@, color, hex),
                out@ == present(choice, i as nat),
                on_board(out@),
            decreases 12 - i,
        {
            let (a, b) = two_step_pair(i);
            let o = land(&hexes, color, two_steps(a, b, hex));
            push_present(&mut out, o);
            i += 1;
        }
    }
    out
}

/// Destinations of a queen on `hex`: slides in all six directions.
pub fn get_queen_moves(hexes: Hexes, hex: usize) -> (out: Vec<usize>)
    requires
        hex < HEX_COUNT,
    ensures
        out@ == queen_moves(hexes@, hex),
        on_board(out@),
{
    let mut out: Vec<usize> = Vec::new();
    if let Some((color, _)) = hexes[hex] {
        slide(&hexes, color, Direction::UpLeft, hex, &mut out);
        slide(&hexes, color, Direction::UpRight, hex, &mut out);
        slide(&hexes, color, Direction::Right, hex, &mut out);
        slide(&hexes, color, Direction::DownRight, hex, &mut out);
        slide(&hexes, color, Direction::DownLeft, hex, &mut out);
        slide(&hexes, color, Direction::Left, hex, &mut out);
        assert(out@ =~= queen_moves(hexes@, hex));
    }
    out
}

/// Destinations of a bishop on `hex`: slides in the four directions that
/// change rank.
pub fn get_bishop_moves(hexes: Hexes, hex: usize) -> (out: Vec<usize>)
    requires
        hex < HEX_COUNT,
    ensures
        out@ == bishop_moves(hexes@, hex),
        on_board(out@),
{
    let mut out: Vec<usize> = Vec::new();
    if let Some((color, _)) = hexes[hex] {
        slide(&hexes, color, Direction::UpLeft, hex, &mut out);
        slide(&hexes, color, Direction::UpRight, hex, &mut out);
        slide(&hexes, color, Direction::DownRight, hex, &mut out);
        slide(&hexes, color, Direction::DownLeft, hex, &mut out);
        assert(out@ =~= bishop_moves(hexes@, hex));
    }
    out
}

/// Destinations of a fortress on `hex`: the steps of a king; the steps to
/// empty neighbours, once more; and for each of the twelve compositions of two
/// steps one walk over empty cells, in the listed order of the steps if that
/// way is free, else in the other order.
pub fn get_fortress_moves(hexes: Hexes, hex: usize) -> (out: Vec<usize>)
    requires
        hex < HEX_COUNT,
    ensures
        out@ == fortress_moves(hexes@, hex),
        on_board(out@),
{
    let mut out = get_king_moves(hexes, hex);
    if let Some((_color, _)) = hexes[hex] {
        let ghost royal = out@;
        let ghost short = short_walk_choice(hexes@, hex);
        let mut i: usize = 0;
        while i < 6
            invariant
                i <= 6,
                hex < HEX_COUNT,
                short == short_walk_choice(hexes@, hex),
                out@ == royal + present(short, i as nat),
                on_board(out@),
            decreases 6 - i,
        {
            let ghost before = present(short, i as nat);
            let o = rest(&hexes, step(Direction::from_index(i), hex));
            push_present(&mut out, o);
            proof {
                if let Some(h) = o {
                    assert(out@ =~= royal + before.push(h));
                }
            }
            i += 1;
        }
        let ghost near = out@;
        let ghost long = long_walk_choice(hexes@, hex);
        let mut j: usize = 0;
        while j < 12
            invariant
                j <= 12,
                hex < HEX_COUNT,
                long == long_walk_choice(hexes@, hex),
                out@ == near + present(long, j as nat),
                on_board(out@),
            decreases 12 - j,
        {
            let ghost before = present(long, j as nat);
            let (a, b) = two_step_pair(j);
            let o = match quiet_two_steps(&hexes, a, b, hex) {
                Some(t) => Some(t),
                None => quiet_two_steps(&hexes, b, a, hex),
            };
            push_present(&mut out, o);
            proof {
                if let Some(h) = o {
                    assert(out@ =~= near + before.push(h));
                }
            }
            j += 1;
        }
        assert(out@ =~= fortress_moves(hexes@, hex));
    }
    out
}

/// Appends one branch of a general's move.
fn general_branch_into(
    hexes: &Hexes,
    color: Player,
    fst: Direction,
    snd: Direction,
    hex: usize,
    out: &mut Vec<usize>,
)
    requires
        hex < HEX_COUNT,
        on_board(old(out)@),
    ensures
        final(out)@ == old(out)@ + general_branch(hexes@, color, fst, snd, hex),
        on_board(final(out)@),
{
    let ghost before = out@;
    if let Some(one) = step(fst, hex) {
        if has_colored_piece(*hexes, one, color.opposite()) {
            out.push(one);
            assert(out@ =~= before + seq![one]);
        } else if is_vacant(hexes, one) {
            out.push(one);
            slide(hexes, color, snd, one, out);
            assert(out@ =~= before + (seq![one] + ray(hexes@, color, snd, one)));
        } else {
            assert(out@ =~= before + Seq::<usize>::empty());
        }
    } else {
        assert(out@ =~= before + Seq::<usize>::empty());
    }
}

/// Destinations of a general on `hex`: for each of its four pairs of
/// directions a step in the first, which may capture, and from an empty cell
/// a slide in the second.
pub fn get_general_moves(hexes: Hexes, hex: usize) -> (out: Vec<usize>)
    requires
        hex < HEX_COUNT,
    ensures
        out@ == general_moves(hexes@, hex),
        on_board(out@),
{
    let mut out: Vec<usize> = Vec::new();
    if let Some((color, _)) = hexes[hex] {
        general_branch_into(&hexes, color, Direction::UpLeft, Direction::Left, hex, &mut out);
        general_branch_into(&hexes, color, Direction::UpRight, Direction::Right, hex, &mut out);
        general_branch_into(&hexes, color, Direction::DownRight, Direction::Right, hex, &mut out);
        general_branch_into(&hexes, color, Direction::DownLeft, Direction::Left, hex, &mut out);
        assert(out@ =~= general_moves(hexes@, hex));
    }
    out
}

/// Destinations of a pawn on `hex`: the two cells diagonally ahead, each if
/// it is empty or holds a piece of the other side, and the cell straight
/// ahead, two ranks on, if it and both cells diagonally ahead are empty.
/// White advances towards the top rank, Black towards the bottom rank.
pub fn get_pawn_moves(hexes: Hexes, hex: usize) -> (out: Vec<usize>)
    requires
        hex < HEX_COUNT,
    ensures
        out@ == pawn_moves(hexes@, hex),
        on_board(out@),
{
    let mut out: Vec<usize> = Vec::new();
    if let Some((color, _)) = hexes[hex] {
        let (fl, fr) = match color {
            Player::White => (Direction::UpLeft, Direction::UpRight),
            Player::Black => (Direction::DownLeft, Direction::DownRight),
        };
        let ghost choice = pawn_choice(hexes@, color, hex);
        let left = land(&hexes, color, step(fl, hex));
        let right = land(&hexes, color, step(fr, hex));
        let free_left = rest(&hexes, step(fl, hex)).is_some();
        let free_right = rest(&hexes, step(fr, hex)).is_some();
        let ahead = if free_left && free_right {
            rest(&hexes, two_steps(fr, fl, hex))
        } else {
            None
        };
        assert(present(choice, 0) =~= Seq::<usize>::empty());
        push_present(&mut out, left);
        assert(out@ =~= present(choice, 1));
        push_present(&mut out, right);
        assert(out@ =~= present(choice, 2));
        push_present(&mut out, ahead);
        assert(out@ =~= present(choice, 3));
    }
    out
}

/// The destinations of the piece on `hex`, by the rule of its kind, before
/// the rule on fortresses is applied. An empty cell has none.
pub fn find_valid_moves(board: &Board, hex: usize) -> (out: Vec<usize>)
    requires
        hex < HEX_COUNT,
    ensures
        out@ == legal_destinations(board.hexes@, hex),
        on_board(out@),
{
    match board.hexes[hex] {
        Some((_, piece)) => match piece {
            Piece::King => get_king_moves(board.hexes, hex),
            Piece::Bishop => get_bishop_moves(board.hexes, hex),
            Piece::Queen => get_queen_moves(board.hexes, hex),
            Piece::Knight => get_knight_moves(board.hexes, hex),
            Piece::Fortress => get_fortress_moves(board.hexes, hex),
            Piece::General => get_general_moves(board.hexes, hex),
            Piece::Pawn => get_pawn_moves(board.hexes, hex),
        },
        None => Vec::new(),
    }
}

// ---------------------------------------------------------------------------
// Attackers
// ---------------------------------------------------------------------------

/// How many times a cell occurs in a list of destinations.
pub open spec fn occurrences(s: Seq<usize>, target: usize) -> nat
    decreases s.len(),
{
    if s.len() == 0 {
        0
    } else {
        occurrences(s.drop_last(), target) + if s.last() == target {
            1nat
        } else {
            0nat
        }
    }
}

/// How many destinations of the pieces on the cells before `limit` are the
/// cell `target`.
pub open spec fn attacks_from(cells: Cells, target: usize, limit: nat) -> nat
    decreases limit,
{
    if limit == 0 {
        0
    } else {
        attacks_from(cells, target, (limit - 1) as nat) + occurrences(
            legal_destinations(cells, (limit - 1) as usize),
            target,
        )
    }
}

/// The attackers of a cell: for an occupied cell, how many destinations of
/// the pieces on the board, of either side, are that cell. An empty cell has
/// none.
pub open spec fn attackers(cells: Cells, target: usize) -> nat {
    if vacant(cells, target) {
        0
    } else {
        attacks_from(cells, target, HEX_COUNT as nat)
    }
}

/// The counts are those of the attackers of each cell.
pub open spec fn counts_match(cells: Cells, counts: Seq<u8>) -> bool {
    &&& counts.len() == HEX_COUNT
    &&& forall|t: int| 0 <= t < HEX_COUNT ==> #[trigger] counts[t] == attackers(cells, t as usize)
}

/// Counts, for every occupied cell, the destinations of all pieces that land
/// on it.
pub fn count_threats(board: &Board) -> (out: [u8; HEX_COUNT])
    ensures
        counts_match(board.hexes@, out@),
{
    let mut out: [u8; HEX_COUNT] = [0;HEX_COUNT];
    let ghost cells = board.hexes@;
    let mut hex: usize = 0;
    while hex < HEX_COUNT
        invariant
            hex <= HEX_COUNT,
            cells == board.hexes@,
            forall|t: int|
                0 <= t < HEX_COUNT ==> #[trigger] out@[t] == if vacant(cells, t as usize) {
                    0
                } else {
                    attacks_from(cells, t as usize, hex as nat)
                },
        decreases HEX_COUNT - hex,
    {
        let moves = find_valid_moves(board, hex);
        let mut j: usize = 0;
        while j < moves.len()
            invariant
                j <= moves@.len(),
                hex < HEX_COUNT,
                cells == board.hexes@,
                moves@ == legal_destinations(cells, hex),
                on_board(moves@),
                forall|t: int|
                    0 <= t < HEX_COUNT ==> #[trigger] out@[t] == if vacant(cells, t as usize) {
                        0
                    } else {
                        attacks_from(cells, t as usize, hex as nat) + occurrences(
                            moves@.take(j as int),
                            t as usize,
                        )
                    },
            decreases moves@.len() - j,
        {
            let vm = moves[j];
            proof {
                assert(moves@.take(j + 1).drop_last() =~= moves@.take(j as int));
                assert(moves@.take(j + 1).last() == vm);
            }
            if board.hexes[vm].is_some() {
                proof {
                    lemma_attacks_bounded(cells, vm, hex as nat);
                    lemma_attacked_once(cells, hex, vm);
                    lemma_occurrences_take(moves@, j + 1, vm);
                }
                out[vm] += 1;
            }
            j += 1;
        }
        proof {
            assert(moves@.take(moves@.len() as int) =~= moves@);
        }
        hex += 1;
    }
    out
}

/// Whether the piece on a cell can be taken: a fortress only while more than
/// one piece attacks it, any other piece always. An empty cell counts as
/// open.
pub open spec fn vulnerable(cells: Cells, counts: Seq<u8>, hex: usize) -> bool {
    match cells[hex as int] {
        Some((_, Piece::Fortress)) => counts[hex as int] > 1,
        _ => true,
    }
}

/// Whether a move to `t` is open under the rule on fortresses.
pub fn is_vulnerable(b: &Board, t: usize) -> (r: bool)
    requires
        t < HEX_COUNT,
    ensures
        r == vulnerable(b.hexes@, b.threats@, t),
{
    if let Some((_, piece)) = b.hexes[t] {
        if piece == Piece::Fortress {
            return b.threats[t] > 1;
        }
    }
    true
}

/// The destinations that remain under the rule on fortresses.
pub open spec fn candidates(cells: Cells, counts: Seq<u8>, hex: usize) -> Seq<usize> {
    legal_destinations(cells, hex).filter(|d: usize| vulnerable(cells, counts, d))
}

/// The destinations of the piece on `hex` to which it can in fact be moved:
/// its destinations by kind, without the fortresses that fewer than two
/// pieces attack.
pub fn find_candidates(board: &Board, hex: usize) -> (out: Vec<usize>)
    requires
        hex < HEX_COUNT,
    ensures
        out@ == candidates(board.hexes@, board.threats@, hex),
        on_board(out@),
{
    let moves = find_valid_moves(board, hex);
    let ghost open_to = |d: usize| vulnerable(board.hexes@, board.threats@, d);
    let mut out: Vec<usize> = Vec::new();
    let mut j: usize = 0;
    while j < moves.len()
        invariant
            j <= moves@.len(),
            on_board(moves@),
            open_to == |d: usize| vulnerable(board.hexes@, board.threats@, d),
            out@ == moves@.take(j as int).filter(open_to),
            on_board(out@),
        decreases moves@.len() - j,
    {
        let d = moves[j];
        proof {
            reveal(Seq::filter);
            assert(moves@.take(j + 1).drop_last() =~= moves@.take(j as int));
            assert(moves@.take(j + 1).last() == d);
        }
        if is_vulnerable(board, d) {
            out.push(d);
        }
        j += 1;
    }
    proof {
        assert(moves@.take(moves@.len() as int) =~= moves@);
    }
    out
}

} // verus!
