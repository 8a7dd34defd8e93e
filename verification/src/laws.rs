//! Laws of the moves: facts that hold of the destinations on every board.

use vstd::prelude::*;
use crate::board::{
    axis_of, axis_shift, lemma_adjacency_symmetric, lemma_step_coordinates, neighbor,
    neighbor_choice, neighbors, present, rank_of, rank_shift, vacant, held_by, Cells,
    Direction, Player, HEX_COUNT,
};
use crate::logic::{
    admissible, attacks_from, bishop_moves, fortress_moves, forward_left, forward_right, general_branch,
    general_moves, jump, king_choice, king_moves, knight_choice, knight_moves,
    legal_destinations, long_walk_choice, occurrences, pawn_advance, pawn_choice, pawn_moves,
    queen_moves, ray, short_walk_choice, travel, two_step, lemma_step_travels,
};
use crate::pieces::Piece;

verus! {

/// The choice with the given position.
pub open spec fn choice_at(f: spec_fn(int) -> Option<usize>, i: int) -> Option<usize> {
    f(i)
}

/// A cell is among the present ones exactly if one of the choices is that
/// cell.
pub proof fn lemma_present_contains(f: spec_fn(int) -> Option<usize>, n: nat, x: usize)
    ensures
        present(f, n).contains(x) <==> exists|i: int|
            0 <= i < n && #[trigger] choice_at(f, i) == Some(x),
    decreases n,
{
    if n == 0 {
        assert(present(f, 0).len() == 0);
    } else {
        let rest = present(f, (n - 1) as nat);
        lemma_present_contains(f, (n - 1) as nat, x);
        if rest.contains(x) {
            let k = choose|k: int| 0 <= k < rest.len() && rest[k] == x;
            let i = choose|i: int| 0 <= i < n - 1 && #[trigger] choice_at(f, i) == Some(x);
            assert(0 <= i < n && choice_at(f, i) == Some(x));
            match f(n - 1) {
                Some(h) => {
                    assert(rest.push(h)[k] == x);
                },
                None => {},
            }
        }
        if f(n - 1) == Some(x) {
            assert(rest.push(x)[rest.len() as int] == x);
            assert(choice_at(f, n - 1) == Some(x));
        }
        if present(f, n).contains(x) && !rest.contains(x) {
            let k = choose|k: int| 0 <= k < present(f, n).len() && present(f, n)[k] == x;
            match f(n - 1) {
                Some(h) => {
                    if k < rest.len() {
                        assert(rest[k] == x);
                    }
                    assert(choice_at(f, n - 1) == Some(x));
                },
                None => {},
            }
        }
        if exists|i: int| 0 <= i < n && #[trigger] choice_at(f, i) == Some(x) {
            let i = choose|i: int| 0 <= i < n && #[trigger] choice_at(f, i) == Some(x);
            if i < n - 1 {
                assert(rest.contains(x));
            }
        }
    }
}

/// Where no two choices are the same cell, no cell is listed twice.
pub proof fn lemma_present_distinct(f: spec_fn(int) -> Option<usize>, n: nat)
    requires
        forall|i: int, j: int|
            0 <= i < j < n && #[trigger] choice_at(f, i) is Some ==> f(i) != #[trigger] choice_at(
                f,
                j,
            ),
    ensures
        present(f, n).no_duplicates(),
    decreases n,
{
    if n > 0 {
        let rest = present(f, (n - 1) as nat);
        lemma_present_distinct(f, (n - 1) as nat);
        match f(n - 1) {
            Some(h) => {
                lemma_present_contains(f, (n - 1) as nat, h);
                if rest.contains(h) {
                    let i = choose|i: int| 0 <= i < n - 1 && #[trigger] choice_at(f, i) == Some(h);
                    assert(choice_at(f, i) != choice_at(f, n - 1));
                }
                assert forall|a: int, b: int|
                    0 <= a < rest.push(h).len() && 0 <= b < rest.push(h).len() && a
                        != b implies rest.push(h)[a] != rest.push(h)[b] by {
                    if a < rest.len() && b < rest.len() {
                        assert(rest[a] != rest[b]);
                    } else if a < rest.len() {
                        assert(rest.contains(rest[a]));
                    } else {
                        assert(rest.contains(rest[b]));
                    }
                }
            },
            None => {},
        }
    }
}

/// Adjacency is symmetric: a cell is among the neighbours of each of its own
/// neighbours.
pub proof fn lemma_adjacent_symmetric(a: usize, b: usize)
    requires
        a < HEX_COUNT,
        neighbors(a).contains(b),
    ensures
        b < HEX_COUNT,
        neighbors(b).contains(a),
{
    lemma_present_contains(neighbor_choice(a), 6, b);
    let i = choose|i: int| 0 <= i < 6 && #[trigger] choice_at(neighbor_choice(a), i) == Some(b);
    let d = Direction::at(i);
    lemma_adjacency_symmetric(d, a, b);
    let j = if i < 3 {
        i + 3
    } else {
        i - 3
    };
    assert(Direction::at(j) == d.reverse());
    assert(choice_at(neighbor_choice(b), j) == Some(a));
    lemma_present_contains(neighbor_choice(b), 6, a);
}

/// Two steps change the rank and the position along the rank by the sum of
/// what each step changes.
pub proof fn lemma_jump_coordinates(a: Direction, b: Direction, hex: usize)
    requires
        hex < HEX_COUNT,
    ensures
        jump(a, b, hex) matches Some(t) ==> t < HEX_COUNT && rank_of(t as int) == rank_of(
            hex as int,
        ) + rank_shift(a) + rank_shift(b) && axis_of(t as int) == axis_of(hex as int) + axis_shift(
            a,
        ) + axis_shift(b),
{
    lemma_step_coordinates(a, hex);
    if let Some(t) = neighbor(a, hex) {
        lemma_step_coordinates(b, t);
    }
}

/// No composition of two steps of a knight leads back to the cell, and no two
/// of the twelve lead to the same cell.
pub proof fn lemma_knight_jumps_differ(hex: usize, i: int, j: int)
    requires
        hex < HEX_COUNT,
        0 <= i < 12,
        0 <= j < 12,
        i != j,
    ensures
        jump(two_step(i).0, two_step(i).1, hex) matches Some(t) ==> t != hex && jump(
            two_step(j).0,
            two_step(j).1,
            hex,
        ) != Some(t),
{
    let (a, b) = two_step(i);
    let (c, d) = two_step(j);
    lemma_jump_coordinates(a, b, hex);
    lemma_jump_coordinates(c, d, hex);
    if let Some(t) = jump(a, b, hex) {
        assert(rank_shift(a) + rank_shift(b) != 0 || axis_shift(a) + axis_shift(b) != 0);
        assert(rank_shift(a) + rank_shift(b) != rank_shift(c) + rank_shift(d) || axis_shift(a)
            + axis_shift(b) != axis_shift(c) + axis_shift(d));
    }
}

/// The destinations of a knight never include the cell on which it stands,
/// and none of them is listed twice.
pub proof fn lemma_knight_moves_distinct(cells: Cells, hex: usize)
    requires
        cells.len() == HEX_COUNT,
        hex < HEX_COUNT,
    ensures
        !knight_moves(cells, hex).contains(hex),
        knight_moves(cells, hex).no_duplicates(),
{
    match cells[hex as int] {
        Some((color, _)) => {
            let f = knight_choice(cells, color, hex);
            assert forall|i: int, j: int|
                0 <= i < j < 12 && #[trigger] choice_at(f, i) is Some implies f(i)
                    != #[trigger] choice_at(f, j) by {
                lemma_knight_jumps_differ(hex, i, j);
            }
            lemma_present_distinct(f, 12);
            lemma_present_contains(f, 12, hex);
            if present(f, 12).contains(hex) {
                let i = choose|i: int| 0 <= i < 12 && #[trigger] choice_at(f, i) == Some(hex);
                lemma_knight_jumps_differ(hex, i, if i == 0 { 1 } else { 0 });
            }
        },
        None => {},
    }
}

/// While a piece stands on either cell diagonally ahead of a pawn, the pawn
/// cannot advance straight: the cell two ranks ahead is not among its
/// destinations, whether or not that cell is empty.
pub proof fn lemma_pawn_advance_needs_free_diagonals(cells: Cells, hex: usize, color: Player)
    requires
        cells.len() == HEX_COUNT,
        hex < HEX_COUNT,
        cells[hex as int] == Some((color, Piece::Pawn)),
        (neighbor(forward_left(color), hex) matches Some(l) && !vacant(cells, l)) || (neighbor(
            forward_right(color),
            hex,
        ) matches Some(r) && !vacant(cells, r)),
    ensures
        pawn_advance(cells, color, hex) is None,
        jump(forward_right(color), forward_left(color), hex) matches Some(far)
            ==> !legal_destinations(cells, hex).contains(far),
{
    let fl = forward_left(color);
    let fr = forward_right(color);
    if let Some(far) = jump(fr, fl, hex) {
        let f = pawn_choice(cells, color, hex);
        lemma_jump_coordinates(fr, fl, hex);
        lemma_step_coordinates(fl, hex);
        lemma_step_coordinates(fr, hex);
        lemma_present_contains(f, 3, far);
        assert(legal_destinations(cells, hex) == pawn_moves(cells, hex));
        if present(f, 3).contains(far) {
            let i = choose|i: int| 0 <= i < 3 && #[trigger] choice_at(f, i) == Some(far);
            assert(false);
        }
    }
}

// ---------------------------------------------------------------------------
// Where a piece may land
// ---------------------------------------------------------------------------

/// A cell is listed in a concatenation exactly if it is listed in one of the
/// two parts.
pub proof fn lemma_concat_contains(a: Seq<usize>, b: Seq<usize>, x: usize)
    ensures
        (a + b).contains(x) <==> (a.contains(x) || b.contains(x)),
{
    if (a + b).contains(x) {
        let k = choose|k: int| 0 <= k < (a + b).len() && (a + b)[k] == x;
        if k < a.len() {
            assert(a[k] == x);
        } else {
            assert(b[k - a.len()] == x);
        }
    }
    if a.contains(x) {
        let k = choose|k: int| 0 <= k < a.len() && a[k] == x;
        assert((a + b)[k] == x);
    }
    if b.contains(x) {
        let k = choose|k: int| 0 <= k < b.len() && b[k] == x;
        assert((a + b)[a.len() + k] == x);
    }
}

/// Every cell that a slide reaches is a cell of the board that is empty or
/// holds a piece of the other side.
pub proof fn lemma_ray_cells(cells: Cells, color: Player, d: Direction, from: usize, x: usize)
    requires
        cells.len() == HEX_COUNT,
        from < HEX_COUNT,
        ray(cells, color, d, from).contains(x),
    ensures
        x < HEX_COUNT,
        admissible(cells, color, x),
    decreases travel(d, from),
{
    lemma_step_travels(d, from);
    match neighbor(d, from) {
        Some(h) => {
            assert(seq![h].contains(x) ==> x == h);
            if vacant(cells, h) {
                lemma_concat_contains(seq![h], ray(cells, color, d, h), x);
                if ray(cells, color, d, h).contains(x) {
                    lemma_ray_cells(cells, color, d, h, x);
                }
            }
        },
        None => {},
    }
}

proof fn lemma_branch_cells(
    cells: Cells,
    color: Player,
    fst: Direction,
    snd: Direction,
    from: usize,
    x: usize,
)
    requires
        cells.len() == HEX_COUNT,
        from < HEX_COUNT,
        general_branch(cells, color, fst, snd, from).contains(x),
    ensures
        x < HEX_COUNT,
        admissible(cells, color, x),
{
    lemma_step_coordinates(fst, from);
    match neighbor(fst, from) {
        Some(one) => {
            assert(seq![one].contains(x) ==> x == one);
            if vacant(cells, one) && !held_by(cells, one, color.spec_opposite()) {
                lemma_concat_contains(seq![one], ray(cells, color, snd, one), x);
                if ray(cells, color, snd, one).contains(x) {
                    lemma_ray_cells(cells, color, snd, one, x);
                }
            }
        },
        None => {},
    }
}

proof fn lemma_knight_cells(cells: Cells, color: Player, from: usize, x: usize)
    requires
        cells.len() == HEX_COUNT,
        from < HEX_COUNT,
        cells[from as int] matches Some((c, _)) && c == color,
        knight_moves(cells, from).contains(x),
    ensures
        x < HEX_COUNT,
        admissible(cells, color, x),
{
    let f = knight_choice(cells, color, from);
    lemma_present_contains(f, 12, x);
    let i = choose|i: int| 0 <= i < 12 && #[trigger] choice_at(f, i) == Some(x);
    lemma_jump_coordinates(two_step(i).0, two_step(i).1, from);
}

proof fn lemma_pawn_cells(cells: Cells, color: Player, from: usize, x: usize)
    requires
        cells.len() == HEX_COUNT,
        from < HEX_COUNT,
        cells[from as int] matches Some((c, _)) && c == color,
        pawn_moves(cells, from).contains(x),
    ensures
        x < HEX_COUNT,
        admissible(cells, color, x),
{
    let f = pawn_choice(cells, color, from);
    lemma_present_contains(f, 3, x);
    let i = choose|i: int| 0 <= i < 3 && #[trigger] choice_at(f, i) == Some(x);
    lemma_step_coordinates(forward_left(color), from);
    lemma_step_coordinates(forward_right(color), from);
    lemma_jump_coordinates(forward_right(color), forward_left(color), from);
}

proof fn lemma_queen_cells(cells: Cells, color: Player, from: usize, x: usize)
    requires
        cells.len() == HEX_COUNT,
        from < HEX_COUNT,
        cells[from as int] matches Some((c, _)) && c == color,
        queen_moves(cells, from).contains(x),
    ensures
        x < HEX_COUNT,
        admissible(cells, color, x),
{
    let a = ray(cells, color, Direction::UpLeft, from);
    let b = ray(cells, color, Direction::UpRight, from);
    let c = ray(cells, color, Direction::Right, from);
    let d = ray(cells, color, Direction::DownRight, from);
    let e = ray(cells, color, Direction::DownLeft, from);
    let f = ray(cells, color, Direction::Left, from);
    lemma_concat_contains(a + b + c + d + e, f, x);
    lemma_concat_contains(a + b + c + d, e, x);
    lemma_concat_contains(a + b + c, d, x);
    lemma_concat_contains(a + b, c, x);
    lemma_concat_contains(a, b, x);
    if a.contains(x) {
        lemma_ray_cells(cells, color, Direction::UpLeft, from, x);
    } else if b.contains(x) {
        lemma_ray_cells(cells, color, Direction::UpRight, from, x);
    } else if c.contains(x) {
        lemma_ray_cells(cells, color, Direction::Right, from, x);
    } else if d.contains(x) {
        lemma_ray_cells(cells, color, Direction::DownRight, from, x);
    } else if e.contains(x) {
        lemma_ray_cells(cells, color, Direction::DownLeft, from, x);
    } else {
        lemma_ray_cells(cells, color, Direction::Left, from, x);
    }
}

proof fn lemma_bishop_cells(cells: Cells, color: Player, from: usize, x: usize)
    requires
        cells.len() == HEX_COUNT,
        from < HEX_COUNT,
        cells[from as int] matches Some((c, _)) && c == color,
        bishop_moves(cells, from).contains(x),
    ensures
        x < HEX_COUNT,
        admissible(cells, color, x),
{
    let a = ray(cells, color, Direction::UpLeft, from);
    let b = ray(cells, color, Direction::UpRight, from);
    let d = ray(cells, color, Direction::DownRight, from);
    let e = ray(cells, color, Direction::DownLeft, from);
    lemma_concat_contains(a + b + d, e, x);
    lemma_concat_contains(a + b, d, x);
    lemma_concat_contains(a, b, x);
    if a.contains(x) {
        lemma_ray_cells(cells, color, Direction::UpLeft, from, x);
    } else if b.contains(x) {
        lemma_ray_cells(cells, color, Direction::UpRight, from, x);
    } else if d.contains(x) {
        lemma_ray_cells(cells, color, Direction::DownRight, from, x);
    } else {
        lemma_ray_cells(cells, color, Direction::DownLeft, from, x);
    }
}

proof fn lemma_fortress_cells(cells: Cells, color: Player, from: usize, x: usize)
    requires
        cells.len() == HEX_COUNT,
        from < HEX_COUNT,
        cells[from as int] matches Some((c, _)) && c == color,
        fortress_moves(cells, from).contains(x),
    ensures
        x < HEX_COUNT,
        admissible(cells, color, x),
{
    let royal = king_moves(cells, from);
    let short = present(short_walk_choice(cells, from), 6);
    let long = present(long_walk_choice(cells, from), 12);
    lemma_concat_contains(royal + short, long, x);
    lemma_concat_contains(royal, short, x);
    if royal.contains(x) {
        lemma_king_cells(cells, color, from, x);
    } else if short.contains(x) {
        lemma_present_contains(short_walk_choice(cells, from), 6, x);
        let i = choose|i: int|
            0 <= i < 6 && #[trigger] choice_at(short_walk_choice(cells, from), i) == Some(x);
        lemma_step_coordinates(Direction::at(i), from);
    } else {
        lemma_present_contains(long_walk_choice(cells, from), 12, x);
        let i = choose|i: int|
            0 <= i < 12 && #[trigger] choice_at(long_walk_choice(cells, from), i) == Some(x);
        lemma_jump_coordinates(two_step(i).0, two_step(i).1, from);
        lemma_jump_coordinates(two_step(i).1, two_step(i).0, from);
    }
}

proof fn lemma_general_cells(cells: Cells, color: Player, from: usize, x: usize)
    requires
        cells.len() == HEX_COUNT,
        from < HEX_COUNT,
        cells[from as int] matches Some((c, _)) && c == color,
        general_moves(cells, from).contains(x),
    ensures
        x < HEX_COUNT,
        admissible(cells, color, x),
{
    let a = general_branch(cells, color, Direction::UpLeft, Direction::Left, from);
    let b = general_branch(cells, color, Direction::UpRight, Direction::Right, from);
    let c = general_branch(cells, color, Direction::DownRight, Direction::Right, from);
    let d = general_branch(cells, color, Direction::DownLeft, Direction::Left, from);
    lemma_concat_contains(a + b + c, d, x);
    lemma_concat_contains(a + b, c, x);
    lemma_concat_contains(a, b, x);
    if a.contains(x) {
        lemma_branch_cells(cells, color, Direction::UpLeft, Direction::Left, from, x);
    } else if b.contains(x) {
        lemma_branch_cells(cells, color, Direction::UpRight, Direction::Right, from, x);
    } else if c.contains(x) {
        lemma_branch_cells(cells, color, Direction::DownRight, Direction::Right, from, x);
    } else {
        lemma_branch_cells(cells, color, Direction::DownLeft, Direction::Left, from, x);
    }
}

/// Every destination of a piece is a cell of the board other than its own
/// that is empty or holds a piece of the other side.
pub proof fn lemma_destinations_admissible(cells: Cells, from: usize, x: usize)
    requires
        cells.len() == HEX_COUNT,
        from < HEX_COUNT,
        legal_destinations(cells, from).contains(x),
    ensures
        x < HEX_COUNT,
        x != from,
        cells[from as int] matches Some((color, _)) && admissible(cells, color, x),
{
    match cells[from as int] {
        Some((color, Piece::King)) => lemma_king_cells(cells, color, from, x),
        Some((color, Piece::Queen)) => lemma_queen_cells(cells, color, from, x),
        Some((color, Piece::Knight)) => lemma_knight_cells(cells, color, from, x),
        Some((color, Piece::Bishop)) => lemma_bishop_cells(cells, color, from, x),
        Some((color, Piece::Fortress)) => lemma_fortress_cells(cells, color, from, x),
        Some((color, Piece::General)) => lemma_general_cells(cells, color, from, x),
        Some((color, Piece::Pawn)) => lemma_pawn_cells(cells, color, from, x),
        None => {
            assert(legal_destinations(cells, from).len() == 0);
        },
    }
}

proof fn lemma_king_cells(cells: Cells, color: Player, from: usize, x: usize)
    requires
        cells.len() == HEX_COUNT,
        from < HEX_COUNT,
        cells[from as int] matches Some((c, _)) && c == color,
        king_moves(cells, from).contains(x),
    ensures
        x < HEX_COUNT,
        admissible(cells, color, x),
{
    let f = king_choice(cells, color, from);
    lemma_present_contains(f, 6, x);
    let i = choose|i: int| 0 <= i < 6 && #[trigger] choice_at(f, i) == Some(x);
    lemma_step_coordinates(Direction::at(i), from);
}

// ---------------------------------------------------------------------------
// How often a piece attacks a cell
// ---------------------------------------------------------------------------

/// Occurrences in a concatenation are those in its two parts.
pub proof fn lemma_occurrences_add(a: Seq<usize>, b: Seq<usize>, t: usize)
    ensures
        occurrences(a + b, t) == occurrences(a, t) + occurrences(b, t),
    decreases b.len(),
{
    if b.len() == 0 {
        assert(a + b =~= a);
    } else {
        assert((a + b).drop_last() =~= a + b.drop_last());
        lemma_occurrences_add(a, b.drop_last(), t);
    }
}

/// A cell occurs once in the list of that cell alone, and in no other list of
/// one cell.
pub proof fn lemma_occurrences_single(h: usize, t: usize)
    ensures
        occurrences(seq![h], t) == if h == t {
            1nat
        } else {
            0nat
        },
{
    assert(seq![h].drop_last() =~= Seq::<usize>::empty());
    assert(occurrences(Seq::<usize>::empty(), t) == 0);
    assert(seq![h].last() == h);
}

/// A cell that is listed occurs at least once.
pub proof fn lemma_occurrences_listed(s: Seq<usize>, t: usize)
    requires
        s.contains(t),
    ensures
        occurrences(s, t) >= 1,
    decreases s.len(),
{
    let k = choose|k: int| 0 <= k < s.len() && s[k] == t;
    if k < s.len() - 1 {
        assert(s.drop_last()[k] == t);
        lemma_occurrences_listed(s.drop_last(), t);
    }
}

/// A cell that is not listed occurs no times.
pub proof fn lemma_occurrences_absent(s: Seq<usize>, t: usize)
    requires
        !s.contains(t),
    ensures
        occurrences(s, t) == 0,
    decreases s.len(),
{
    if s.len() > 0 {
        assert(s[s.len() - 1] != t);
        assert forall|k: int| 0 <= k < s.drop_last().len() implies s.drop_last()[k] != t by {
            assert(s[k] != t);
        }
        lemma_occurrences_absent(s.drop_last(), t);
    }
}

/// A cell occurs in the first cells of a list no more often than in the whole
/// list.
pub proof fn lemma_occurrences_take(s: Seq<usize>, k: int, t: usize)
    requires
        0 <= k <= s.len(),
    ensures
        occurrences(s.take(k), t) <= occurrences(s, t),
{
    assert(s =~= s.take(k) + s.skip(k));
    lemma_occurrences_add(s.take(k), s.skip(k), t);
}

/// Where no two choices are the cell `t`, it is listed at most once.
pub proof fn lemma_present_hits_once(f: spec_fn(int) -> Option<usize>, n: nat, t: usize)
    requires
        forall|i: int, j: int|
            0 <= i < j < n ==> !(#[trigger] choice_at(f, i) == Some(t) && #[trigger] choice_at(f, j)
                == Some(t)),
    ensures
        occurrences(present(f, n), t) <= 1,
    decreases n,
{
    if n > 0 {
        let rest = present(f, (n - 1) as nat);
        lemma_present_hits_once(f, (n - 1) as nat, t);
        match f(n - 1) {
            Some(h) => {
                assert(rest.push(h).drop_last() =~= rest);
                if h == t {
                    lemma_present_contains(f, (n - 1) as nat, t);
                    if rest.contains(t) {
                        let i = choose|i: int|
                            0 <= i < n - 1 && #[trigger] choice_at(f, i) == Some(t);
                        assert(choice_at(f, n - 1) == Some(t));
                    }
                    lemma_occurrences_absent(rest, t);
                }
            },
            None => {},
        }
    }
}

/// Where no choice is the cell `t`, it is not listed.
pub proof fn lemma_present_misses(f: spec_fn(int) -> Option<usize>, n: nat, t: usize)
    requires
        forall|i: int| 0 <= i < n ==> #[trigger] choice_at(f, i) != Some(t),
    ensures
        occurrences(present(f, n), t) == 0,
{
    lemma_present_contains(f, n, t);
    lemma_occurrences_absent(present(f, n), t);
}

/// The cell `t` lies on the line that leaves `from` in direction `d`.
pub open spec fn beyond(d: Direction, from: usize, t: usize) -> bool {
    let dr = rank_of(t as int) - rank_of(from as int);
    let da = axis_of(t as int) - axis_of(from as int);
    match d {
        Direction::UpLeft => da == 0 && dr < 0,
        Direction::UpRight => da + dr == 0 && dr < 0,
        Direction::Right => dr == 0 && da > 0,
        Direction::DownRight => da == 0 && dr > 0,
        Direction::DownLeft => da + dr == 0 && dr > 0,
        Direction::Left => dr == 0 && da < 0,
    }
}

/// A slide reaches an occupied cell at most once, and only on the line that
/// leaves the start in the direction of the slide.
pub proof fn lemma_ray_hits(cells: Cells, color: Player, d: Direction, from: usize, t: usize)
    requires
        cells.len() == HEX_COUNT,
        from < HEX_COUNT,
        !vacant(cells, t),
    ensures
        occurrences(ray(cells, color, d, from), t) <= 1,
        occurrences(ray(cells, color, d, from), t) == 1 ==> beyond(d, from, t),
    decreases travel(d, from),
{
    lemma_step_travels(d, from);
    lemma_step_coordinates(d, from);
    match neighbor(d, from) {
        Some(h) => {
            lemma_occurrences_single(h, t);
            if vacant(cells, h) {
                lemma_ray_hits(cells, color, d, h, t);
                lemma_occurrences_add(seq![h], ray(cells, color, d, h), t);
            }
        },
        None => {},
    }
}

/// One branch of a general's move reaches an occupied cell at most once: by
/// its first step, or on the line of its slide.
pub proof fn lemma_branch_hits(
    cells: Cells,
    color: Player,
    fst: Direction,
    snd: Direction,
    hex: usize,
    t: usize,
)
    requires
        cells.len() == HEX_COUNT,
        hex < HEX_COUNT,
        !vacant(cells, t),
    ensures
        occurrences(general_branch(cells, color, fst, snd, hex), t) <= 1,
        occurrences(general_branch(cells, color, fst, snd, hex), t) == 1 ==> (neighbor(fst, hex)
            matches Some(one) && (one == t || beyond(snd, one, t))),
{
    lemma_step_coordinates(fst, hex);
    match neighbor(fst, hex) {
        Some(one) => {
            lemma_occurrences_single(one, t);
            if vacant(cells, one) {
                lemma_ray_hits(cells, color, snd, one, t);
                lemma_occurrences_add(seq![one], ray(cells, color, snd, one), t);
            }
        },
        None => {},
    }
}

/// No two directions lead from a cell to the same neighbour.
pub proof fn lemma_neighbors_differ(hex: usize, i: int, j: int)
    requires
        hex < HEX_COUNT,
        0 <= i < j < 6,
    ensures
        neighbor(Direction::at(i), hex) matches Some(t) ==> neighbor(Direction::at(j), hex) != Some(
            t,
        ),
{
    lemma_step_coordinates(Direction::at(i), hex);
    lemma_step_coordinates(Direction::at(j), hex);
}

proof fn lemma_king_hits(cells: Cells, from: usize, t: usize)
    requires
        cells.len() == HEX_COUNT,
        from < HEX_COUNT,
    ensures
        occurrences(king_moves(cells, from), t) <= 1,
{
    match cells[from as int] {
        Some((color, _)) => {
            let f = king_choice(cells, color, from);
            assert forall|i: int, j: int| 0 <= i < j < 6 implies !(#[trigger] choice_at(f, i)
                == Some(t) && #[trigger] choice_at(f, j) == Some(t)) by {
                lemma_neighbors_differ(from, i, j);
            }
            lemma_present_hits_once(f, 6, t);
        },
        None => {},
    }
}

proof fn lemma_knight_hits(cells: Cells, from: usize, t: usize)
    requires
        cells.len() == HEX_COUNT,
        from < HEX_COUNT,
    ensures
        occurrences(knight_moves(cells, from), t) <= 1,
{
    match cells[from as int] {
        Some((color, _)) => {
            let f = knight_choice(cells, color, from);
            assert forall|i: int, j: int| 0 <= i < j < 12 implies !(#[trigger] choice_at(f, i)
                == Some(t) && #[trigger] choice_at(f, j) == Some(t)) by {
                lemma_knight_jumps_differ(from, i, j);
            }
            lemma_present_hits_once(f, 12, t);
        },
        None => {},
    }
}

proof fn lemma_pawn_hits(cells: Cells, from: usize, t: usize)
    requires
        cells.len() == HEX_COUNT,
        from < HEX_COUNT,
        !vacant(cells, t),
    ensures
        occurrences(pawn_moves(cells, from), t) <= 1,
{
    match cells[from as int] {
        Some((color, _)) => {
            let f = pawn_choice(cells, color, from);
            lemma_step_coordinates(forward_left(color), from);
            lemma_step_coordinates(forward_right(color), from);
            assert forall|i: int, j: int| 0 <= i < j < 3 implies !(#[trigger] choice_at(f, i)
                == Some(t) && #[trigger] choice_at(f, j) == Some(t)) by {}
            lemma_present_hits_once(f, 3, t);
        },
        None => {},
    }
}

proof fn lemma_fortress_hits(cells: Cells, from: usize, t: usize)
    requires
        cells.len() == HEX_COUNT,
        from < HEX_COUNT,
        !vacant(cells, t),
    ensures
        occurrences(fortress_moves(cells, from), t) <= 1,
{
    if cells[from as int] is Some {
        let royal = king_moves(cells, from);
        let short = present(short_walk_choice(cells, from), 6);
        let long = present(long_walk_choice(cells, from), 12);
        lemma_king_hits(cells, from, t);
        assert forall|i: int| 0 <= i < 6 implies #[trigger] choice_at(
            short_walk_choice(cells, from),
            i,
        ) != Some(t) by {}
        lemma_present_misses(short_walk_choice(cells, from), 6, t);
        assert forall|i: int| 0 <= i < 12 implies #[trigger] choice_at(
            long_walk_choice(cells, from),
            i,
        ) != Some(t) by {}
        lemma_present_misses(long_walk_choice(cells, from), 12, t);
        lemma_occurrences_add(royal, short, t);
        lemma_occurrences_add(royal + short, long, t);
    }
}

proof fn lemma_queen_hits(cells: Cells, from: usize, t: usize)
    requires
        cells.len() == HEX_COUNT,
        from < HEX_COUNT,
        !vacant(cells, t),
    ensures
        occurrences(queen_moves(cells, from), t) <= 1,
{
    match cells[from as int] {
        Some((color, _)) => {
            let a = ray(cells, color, Direction::UpLeft, from);
            let b = ray(cells, color, Direction::UpRight, from);
            let c = ray(cells, color, Direction::Right, from);
            let d = ray(cells, color, Direction::DownRight, from);
            let e = ray(cells, color, Direction::DownLeft, from);
            let f = ray(cells, color, Direction::Left, from);
            lemma_ray_hits(cells, color, Direction::UpLeft, from, t);
            lemma_ray_hits(cells, color, Direction::UpRight, from, t);
            lemma_ray_hits(cells, color, Direction::Right, from, t);
            lemma_ray_hits(cells, color, Direction::DownRight, from, t);
            lemma_ray_hits(cells, color, Direction::DownLeft, from, t);
            lemma_ray_hits(cells, color, Direction::Left, from, t);
            lemma_occurrences_add(a, b, t);
            lemma_occurrences_add(a + b, c, t);
            lemma_occurrences_add(a + b + c, d, t);
            lemma_occurrences_add(a + b + c + d, e, t);
            lemma_occurrences_add(a + b + c + d + e, f, t);
        },
        None => {},
    }
}

proof fn lemma_bishop_hits(cells: Cells, from: usize, t: usize)
    requires
        cells.len() == HEX_COUNT,
        from < HEX_COUNT,
        !vacant(cells, t),
    ensures
        occurrences(bishop_moves(cells, from), t) <= 1,
{
    match cells[from as int] {
        Some((color, _)) => {
            let a = ray(cells, color, Direction::UpLeft, from);
            let b = ray(cells, color, Direction::UpRight, from);
            let d = ray(cells, color, Direction::DownRight, from);
            let e = ray(cells, color, Direction::DownLeft, from);
            lemma_ray_hits(cells, color, Direction::UpLeft, from, t);
            lemma_ray_hits(cells, color, Direction::UpRight, from, t);
            lemma_ray_hits(cells, color, Direction::DownRight, from, t);
            lemma_ray_hits(cells, color, Direction::DownLeft, from, t);
            lemma_occurrences_add(a, b, t);
            lemma_occurrences_add(a + b, d, t);
            lemma_occurrences_add(a + b + d, e, t);
        },
        None => {},
    }
}

proof fn lemma_general_hits(cells: Cells, from: usize, t: usize)
    requires
        cells.len() == HEX_COUNT,
        from < HEX_COUNT,
        !vacant(cells, t),
    ensures
        occurrences(general_moves(cells, from), t) <= 1,
{
    match cells[from as int] {
        Some((color, _)) => {
            let a = general_branch(cells, color, Direction::UpLeft, Direction::Left, from);
            let b = general_branch(cells, color, Direction::UpRight, Direction::Right, from);
            let c = general_branch(cells, color, Direction::DownRight, Direction::Right, from);
            let d = general_branch(cells, color, Direction::DownLeft, Direction::Left, from);
            lemma_branch_hits(cells, color, Direction::UpLeft, Direction::Left, from, t);
            lemma_branch_hits(cells, color, Direction::UpRight, Direction::Right, from, t);
            lemma_branch_hits(cells, color, Direction::DownRight, Direction::Right, from, t);
            lemma_branch_hits(cells, color, Direction::DownLeft, Direction::Left, from, t);
            lemma_step_coordinates(Direction::UpLeft, from);
            lemma_step_coordinates(Direction::UpRight, from);
            lemma_step_coordinates(Direction::DownRight, from);
            lemma_step_coordinates(Direction::DownLeft, from);
            lemma_occurrences_add(a, b, t);
            lemma_occurrences_add(a + b, c, t);
            lemma_occurrences_add(a + b + c, d, t);
        },
        None => {},
    }
}

/// No piece attacks a cell more than once: an occupied cell occurs at most
/// once among the destinations of a piece, whatever its kind. So the
/// attackers of a cell are counted by piece, not by the ways in which a piece
/// reaches the cell.
pub proof fn lemma_attacked_once(cells: Cells, from: usize, t: usize)
    requires
        cells.len() == HEX_COUNT,
        from < HEX_COUNT,
        !vacant(cells, t),
    ensures
        occurrences(legal_destinations(cells, from), t) <= 1,
{
    match cells[from as int] {
        Some((_, Piece::King)) => lemma_king_hits(cells, from, t),
        Some((_, Piece::Queen)) => lemma_queen_hits(cells, from, t),
        Some((_, Piece::Knight)) => lemma_knight_hits(cells, from, t),
        Some((_, Piece::Bishop)) => lemma_bishop_hits(cells, from, t),
        Some((_, Piece::Fortress)) => lemma_fortress_hits(cells, from, t),
        Some((_, Piece::General)) => lemma_general_hits(cells, from, t),
        Some((_, Piece::Pawn)) => lemma_pawn_hits(cells, from, t),
        None => {},
    }
}

/// The pieces on the cells before `limit` attack an occupied cell at most
/// `limit` times in all.
pub proof fn lemma_attacks_bounded(cells: Cells, t: usize, limit: nat)
    requires
        cells.len() == HEX_COUNT,
        limit <= HEX_COUNT,
        !vacant(cells, t),
    ensures
        attacks_from(cells, t, limit) <= limit,
    decreases limit,
{
    if limit > 0 {
        lemma_attacks_bounded(cells, t, (limit - 1) as nat);
        lemma_attacked_once(cells, (limit - 1) as usize, t);
    }
}

/// How many of the pieces on the cells before `limit` have the cell
/// `target` among their destinations.
pub open spec fn attacking_pieces(cells: Cells, target: usize, limit: nat) -> nat
    decreases limit,
{
    if limit == 0 {
        0
    } else {
        attacking_pieces(cells, target, (limit - 1) as nat) + if legal_destinations(
            cells,
            (limit - 1) as usize,
        ).contains(target) {
            1nat
        } else {
            0nat
        }
    }
}

/// The attacks on an occupied cell are as many as the pieces that have the
/// cell among their destinations.
pub proof fn lemma_attacks_are_pieces(cells: Cells, t: usize, limit: nat)
    requires
        cells.len() == HEX_COUNT,
        limit <= HEX_COUNT,
        !vacant(cells, t),
    ensures
        attacks_from(cells, t, limit) == attacking_pieces(cells, t, limit),
    decreases limit,
{
    if limit > 0 {
        let from = (limit - 1) as usize;
        lemma_attacks_are_pieces(cells, t, (limit - 1) as nat);
        lemma_attacked_once(cells, from, t);
        if legal_destinations(cells, from).contains(t) {
            lemma_occurrences_listed(legal_destinations(cells, from), t);
        } else {
            lemma_occurrences_absent(legal_destinations(cells, from), t);
        }
    }
}

} // verus!
