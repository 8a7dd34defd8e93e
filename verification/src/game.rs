//! The turn-based state machine: selecting a piece, moving it, promotion,
//! alternation of turns and the end of the game.

use vstd::prelude::*;
use crate::board::{held_by, is_queening_hex, queening_zone, Board, Cells, Player, HEX_COUNT};
use crate::logic::{
    candidates, count_threats, counts_match, find_candidates, legal_destinations, vulnerable,
};
use crate::pieces::Piece;

verus! {

/// Where the interaction stands.
#[derive(Clone, Copy, Debug, PartialEq, Eq, Structural)]
pub enum AppState {
    /// No piece is selected; the player is to move.
    Waiting(Player),
    /// The player has selected the piece on the cell and is to choose where
    /// it goes.
    SelectedPiece(Player, usize),
    /// The game is over; the player has won.
    GameWonBy(Player),
}

/// A game in progress: the board and the state of the interaction.
pub struct Game {
    pub board: Board,
    pub state: AppState,
}

/// The piece that arrives when `player` moves the piece on `from` to `to`: a
/// queen in place of a pawn that reaches the player's queening zone, else the
/// piece itself.
pub open spec fn arriving(cells: Cells, player: Player, from: usize, to: usize) -> Option<
    (Player, Piece),
> {
    if cells[from as int] == Some((player, Piece::Pawn)) && queening_zone(to, player) {
        Some((player, Piece::Queen))
    } else {
        cells[from as int]
    }
}

/// The board after `player` has moved the piece on `from` to `to`.
pub open spec fn after_move(cells: Cells, player: Player, from: usize, to: usize) -> Cells {
    cells.update(to as int, arriving(cells, player, from, to)).update(from as int, None)
}

/// A king stands on the cell.
pub open spec fn holds_king(cells: Cells, hex: usize) -> bool {
    match cells[hex as int] {
        Some((_, Piece::King)) => true,
        _ => false,
    }
}

impl Game {
    /// A selected cell is a cell of the board.
    pub open spec fn ready(&self) -> bool {
        match self.state {
            AppState::SelectedPiece(_, s) => s < HEX_COUNT,
            _ => true,
        }
    }

    /// While the game runs, the player named by the state is the one to move,
    /// a selected cell holds a piece of that player, and the counts of
    /// attackers are those of the pieces as they stand.
    pub open spec fn wf(&self) -> bool {
        match self.state {
            AppState::Waiting(p) => p == self.board.current_turn && counts_match(
                self.board.hexes@,
                self.board.threats@,
            ),
            AppState::SelectedPiece(p, s) => p == self.board.current_turn && s < HEX_COUNT
                && held_by(self.board.hexes@, s, p) && counts_match(
                self.board.hexes@,
                self.board.threats@,
            ),
            AppState::GameWonBy(_) => true,
        }
    }

    /// Whether a release over `pick` moves the selected piece there.
    pub open spec fn moves_to(&self, pick: Option<usize>) -> bool {
        match (self.state, pick) {
            (AppState::SelectedPiece(_, s), Some(h)) => h != s && candidates(
                self.board.hexes@,
                self.board.threats@,
                s,
            ).contains(h),
            _ => false,
        }
    }

    /// Whether a release over `pick` takes a king and so ends the game.
    pub open spec fn wins_at(&self, pick: Option<usize>) -> bool {
        self.moves_to(pick) && holds_king(self.board.hexes@, pick.unwrap())
    }

    /// The state after a release over `pick`.
    pub open spec fn next_state(&self, pick: Option<usize>) -> AppState {
        match (self.state, pick) {
            (AppState::Waiting(p), Some(h)) => if held_by(self.board.hexes@, h, p) {
                AppState::SelectedPiece(p, h)
            } else {
                self.state
            },
            (AppState::SelectedPiece(p, s), Some(h)) => if h == s {
                AppState::Waiting(p)
            } else if self.wins_at(pick) {
                AppState::GameWonBy(p)
            } else if self.moves_to(pick) {
                AppState::Waiting(p.spec_opposite())
            } else if held_by(self.board.hexes@, h, p) {
                AppState::SelectedPiece(p, h)
            } else {
                self.state
            },
            _ => self.state,
        }
    }

    /// The pieces after a release over `pick`.
    pub open spec fn next_cells(&self, pick: Option<usize>) -> Cells {
        match (self.state, pick) {
            (AppState::SelectedPiece(p, s), Some(h)) => if self.moves_to(pick) {
                after_move(self.board.hexes@, p, s, h)
            } else {
                self.board.hexes@
            },
            _ => self.board.hexes@,
        }
    }

    /// The player to move after a release over `pick`.
    pub open spec fn next_turn(&self, pick: Option<usize>) -> Player {
        match self.state {
            AppState::SelectedPiece(p, _) => if self.moves_to(pick) && !self.wins_at(pick) {
                p.spec_opposite()
            } else {
                self.board.current_turn
            },
            _ => self.board.current_turn,
        }
    }

    /// A game on the given board, with the player to move waiting.
    pub fn new(board: Board) -> (g: Game)
        ensures
            g.board == board,
            g.state == AppState::Waiting(board.current_turn),
            g.ready(),
            counts_match(board.hexes@, board.threats@) ==> g.wf(),
    {
        let state = AppState::Waiting(board.current_turn);
        Game { board, state }
    }

    /// Handles the release of the pointer over the cell `pick`, or outside
    /// the board where `pick` is `None`.
    ///
    /// While waiting, a release over a piece of the player to move selects
    /// it. With a piece selected, a release over the same cell deselects it;
    /// one over a cell to which the piece can be moved moves it there; one
    /// over another piece of the player selects that piece. A move that takes
    /// a king ends the game in favour of the mover; any other move passes the
    /// turn and has the attackers counted anew. Every other release, and
    /// every release after the game has ended, changes nothing.
    pub fn submit_click(&mut self, pick: Option<usize>)
        requires
            old(self).ready(),
            pick matches Some(h) ==> h < HEX_COUNT,
        ensures
            final(self).state == old(self).next_state(pick),
            final(self).board.hexes@ == old(self).next_cells(pick),
            final(self).board.current_turn == old(self).next_turn(pick),
            old(self).moves_to(pick) && !old(self).wins_at(pick) ==> counts_match(
                final(self).board.hexes@,
                final(self).board.threats@,
            ),
            !(old(self).moves_to(pick) && !old(self).wins_at(pick)) ==> final(self).board.threats
                == old(self).board.threats,
            final(self).ready(),
            old(self).wf() ==> final(self).wf(),
    {
        let hex = match pick {
            Some(h) => h,
            None => {
                return ;
            },
        };
        match self.state {
            AppState::GameWonBy(_) => {},
            AppState::Waiting(player) => {
                if let Some((colour, _)) = self.board.hexes[hex] {
                    if player == colour {
                        self.state = AppState::SelectedPiece(player, hex);
                    }
                }
            },
            AppState::SelectedPiece(player, selected) => {
                if selected == hex {
                    self.state = AppState::Waiting(player);
                } else {
                    let valid_moves = find_candidates(&self.board, selected);
                    if list_contains(&valid_moves, hex) {
                        let target = self.board.hexes[hex];
                        let moved = self.board.hexes[selected];
                        let lands = match moved {
                            Some((owner, Piece::Pawn)) => {
                                if owner == player && is_queening_hex(hex, player) {
                                    Some((player, Piece::Queen))
                                } else {
                                    moved
                                }
                            },
                            _ => moved,
                        };
                        self.board.hexes[hex] = lands;
                        self.board.hexes[selected] = None;
                        match target {
                            Some((_, Piece::King)) => {
                                self.state = AppState::GameWonBy(player);
                            },
                            _ => {
                                self.state = AppState::Waiting(player.opposite());
                                self.board.current_turn = player.opposite();
                                self.board.threats = count_threats(&self.board);
                            },
                        }
                    } else if let Some((other, _)) = self.board.hexes[hex] {
                        if other == player {
                            self.state = AppState::SelectedPiece(player, hex);
                        }
                    }
                }
            },
        }
    }
}

/// Whether a cell is in the list.
fn list_contains(list: &Vec<usize>, hex: usize) -> (found: bool)
    ensures
        found == list@.contains(hex),
{
    let mut i: usize = 0;
    while i < list.len()
        invariant
            i <= list@.len(),
            forall|k: int| 0 <= k < i ==> list@[k] != hex,
        decreases list@.len() - i,
    {
        if list[i] == hex {
            return true;
        }
        i += 1;
    }
    false
}

/// A cell is among the destinations to which a piece can in fact be moved
/// exactly if it is among the piece's destinations by kind and the rule on
/// fortresses leaves it open.
pub proof fn lemma_candidates_membership(cells: Cells, counts: Seq<u8>, from: usize, to: usize)
    ensures
        candidates(cells, counts, from).contains(to) <==> (legal_destinations(
            cells,
            from,
        ).contains(to) && vulnerable(cells, counts, to)),
{
    let open_to = |d: usize| vulnerable(cells, counts, d);
    let all = legal_destinations(cells, from);
    let kept = all.filter(open_to);
    assert(candidates(cells, counts, from) == kept);
    if all.contains(to) && vulnerable(cells, counts, to) {
        let i = choose|i: int| 0 <= i < all.len() && all[i] == to;
        assert(open_to(all[i]));
        all.lemma_filter_contains(open_to, i);
    }
    if kept.contains(to) {
        let k = choose|k: int| 0 <= k < kept.len() && kept[k] == to;
        all.lemma_filter_pred(open_to, k);
        all.lemma_filter_contains_rev(open_to, to);
    }
}

/// A fortress that at most one piece attacks is never among the destinations
/// to which a piece can in fact be moved. One that two or more pieces attack
/// is among them exactly if it is among the piece's destinations by kind.
pub proof fn lemma_fortress_needs_two_attackers(
    cells: Cells,
    counts: Seq<u8>,
    from: usize,
    to: usize,
    owner: Player,
)
    requires
        cells.len() == HEX_COUNT,
        counts.len() == HEX_COUNT,
        to < HEX_COUNT,
        cells[to as int] == Some((owner, Piece::Fortress)),
    ensures
        counts[to as int] <= 1 ==> !candidates(cells, counts, from).contains(to),
        counts[to as int] >= 2 ==> (candidates(cells, counts, from).contains(to)
            <==> legal_destinations(cells, from).contains(to)),
{
    lemma_candidates_membership(cells, counts, from, to);
}

/// Once a player has won, no release changes anything.
pub proof fn lemma_won_game_is_final(g: Game, winner: Player, pick: Option<usize>)
    requires
        g.state == AppState::GameWonBy(winner),
    ensures
        !g.moves_to(pick),
        g.next_state(pick) == g.state,
        g.next_cells(pick) == g.board.hexes@,
        g.next_turn(pick) == g.board.current_turn,
{
}

/// A release over a cell that holds no piece leaves a waiting game waiting.
pub proof fn lemma_empty_cell_is_not_selected(g: Game, player: Player, hex: usize)
    requires
        g.state == AppState::Waiting(player),
        g.board.hexes@[hex as int] is None,
    ensures
        g.next_state(Some(hex)) == g.state,
        g.next_cells(Some(hex)) == g.board.hexes@,
        g.next_turn(Some(hex)) == g.board.current_turn,
{
}

} // verus!
