//! What holds of every game: statements about the rules, each proved from
//! the definitions in the game module.
use crate::board::{BoardSquareCoords, BoardView, SquareEdge, SquareOccupant};
use crate::game::{
    axis_aligned, can_enter, capturable, capture_victim, distance, entry_edge, fresh_game,
    has_citizen, moved, path_cell, side_blocked, surrounded, victim_across, GameView, Team,
    WinState,
};
use vstd::prelude::*;

verus! {

/// Nothing lies outside the board: a coordinate beyond the board's size
/// holds no square, is nobody's neighbour, and no move from it or to it is
/// legal.
pub proof fn lemma_outside_the_board(
    state: GameView,
    outside: BoardSquareCoords,
    other: BoardSquareCoords,
    edge: SquareEdge,
)
    requires
        state.board.wf(),
        !state.board.in_range(outside),
    ensures
        state.board.cell(outside) is None,
        state.board.neighbour(other, edge) != Some(outside),
        !state.is_legal(outside, other),
        !state.is_legal(other, outside),
{
}

/// A move is legal exactly if source and destination share a row or a
/// column, the piece at the source is controlled by the player to move, the
/// destination is empty, and every square after the source up to and
/// including the destination exists, is empty and has no wall on the side
/// through which the piece enters it.
pub proof fn lemma_legal_move(state: GameView, from: BoardSquareCoords, to: BoardSquareCoords)
    ensures
        state.is_legal(from, to) <==> {
            &&& from.0 == to.0 || from.1 == to.1
            &&& state.board.cell(from) matches Some(source)
            &&& source.occupant.owner() == Some(state.turn)
            &&& state.board.cell(to) matches Some(destination)
            &&& destination.occupant is Empty
            &&& forall|k: int|
                1 <= k <= distance(from, to) ==> {
                    &&& (#[trigger] state.board.cell(path_cell(from, to, k))) matches Some(square)
                    &&& square.occupant is Empty
                    &&& !square.wall.has(entry_edge(from, to))
                }
        },
{
    if state.is_legal(from, to) {
        assert forall|k: int| 1 <= k <= distance(from, to) implies {
            &&& (#[trigger] state.board.cell(path_cell(from, to, k))) matches Some(square)
            &&& square.occupant is Empty
            &&& !square.wall.has(entry_edge(from, to))
        } by {
            assert(can_enter(state.board, path_cell(from, to, k), entry_edge(from, to)));
        }
    }
    if axis_aligned(from, to) && (forall|k: int|
        1 <= k <= distance(from, to) ==> {
            &&& (#[trigger] state.board.cell(path_cell(from, to, k))) matches Some(square)
            &&& square.occupant is Empty
            &&& !square.wall.has(entry_edge(from, to))
        }) {
        assert forall|k: int| 1 <= k <= distance(from, to) implies can_enter(
            state.board,
            #[trigger] path_cell(from, to, k),
            entry_edge(from, to),
        ) by {
            assert(state.board.cell(path_cell(from, to, k)) is Some);
        }
    }
}

/// A piece never moves onto its own square, and never onto or over another
/// piece.
pub proof fn lemma_legal_move_passes_nothing(
    state: GameView,
    from: BoardSquareCoords,
    to: BoardSquareCoords,
    k: int,
)
    requires
        state.is_legal(from, to),
        1 <= k <= distance(from, to),
    ensures
        from != to,
        state.board.squares.contains_key(path_cell(from, to, k)),
        state.board.squares[path_cell(from, to, k)].occupant is Empty,
{
    assert(can_enter(state.board, path_cell(from, to, k), entry_edge(from, to)));
}

/// A side of a square is blocked against `mover` exactly if the board ends
/// there, or the neighbour across it has a wall towards the square, or holds
/// a magistrate, or holds a piece that `mover` controls.
pub proof fn lemma_blocked_side(
    board: BoardView,
    pos: BoardSquareCoords,
    edge: SquareEdge,
    mover: Team,
)
    ensures
        side_blocked(board, pos, edge, mover) <==> (board.neighbour(pos, edge) matches Some(n) ==> {
            ||| board.squares[n].wall.has(edge.opposite())
            ||| board.squares[n].occupant is Magistrate
            ||| board.squares[n].occupant.owner() == Some(mover)
        }),
{
}

/// A citizen next to the destination that has a way out on any side stays
/// on the board: a move takes off no piece that is not surrounded.
pub proof fn lemma_free_citizen_survives(
    state: GameView,
    from: BoardSquareCoords,
    to: BoardSquareCoords,
    pos: BoardSquareCoords,
    edge: SquareEdge,
)
    requires
        state.wf(),
        state.is_legal(from, to),
        moved(state.board, from, to).squares.contains_key(pos),
        moved(state.board, from, to).squares[pos].occupant is Citizen,
        pos != to,
        !side_blocked(moved(state.board, from, to), pos, edge, state.turn),
    ensures
        state.after_move(from, to).board.squares.contains_key(pos),
        state.after_move(from, to).board.squares[pos].occupant == moved(
            state.board,
            from,
            to,
        ).squares[pos].occupant,
{
    let b1 = moved(state.board, from, to);
    assert(!surrounded(b1, pos, state.turn)) by {
        match edge {
            SquareEdge::North => {},
            SquareEdge::East => {},
            SquareEdge::South => {},
            SquareEdge::West => {},
        }
    }
    assert(!capturable(b1, pos, state.turn));
    lemma_victim_is_capturable(b1, to, state.turn);
}

/// The citizen that a move captures is a neighbour of the destination that
/// holds a surrounded citizen of another team.
pub proof fn lemma_victim_is_capturable(board: BoardView, to: BoardSquareCoords, mover: Team)
    ensures
        capture_victim(board, to, mover) matches Some(v) ==> capturable(board, v, mover) && exists|
            edge: SquareEdge,
        | #[trigger] board.neighbour(to, edge) == Some(v),
{
    if capture_victim(board, to, mover) is Some {
        let v = capture_victim(board, to, mover)->0;
        if victim_across(board, to, SquareEdge::North, mover) is Some {
            assert(board.neighbour(to, SquareEdge::North) == Some(v));
        } else if victim_across(board, to, SquareEdge::East, mover) is Some {
            assert(board.neighbour(to, SquareEdge::East) == Some(v));
        } else if victim_across(board, to, SquareEdge::South, mover) is Some {
            assert(board.neighbour(to, SquareEdge::South) == Some(v));
        } else {
            assert(board.neighbour(to, SquareEdge::West) == Some(v));
        }
    }
}

/// Where a neighbour of the destination holds a surrounded citizen of
/// another team, the move captures: a citizen is taken off the board and
/// the capture is recorded. The citizen taken is that neighbour, unless a
/// neighbour earlier in the order north, east, south, west can be captured
/// too; then it is the earliest of them.
pub proof fn lemma_surrounded_citizen_is_captured(
    state: GameView,
    from: BoardSquareCoords,
    to: BoardSquareCoords,
    edge: SquareEdge,
)
    requires
        state.wf(),
        state.is_legal(from, to),
        victim_across(moved(state.board, from, to), to, edge, state.turn) is Some,
    ensures
        capture_victim(moved(state.board, from, to), to, state.turn) matches Some(v)
            && state.after_move(from, to).board.squares[v].occupant is Empty
            && state.after_move(from, to).murder_happened,
        (forall|earlier: SquareEdge|
            earlier.scan_rank() < edge.scan_rank() ==> victim_across(
                moved(state.board, from, to),
                to,
                earlier,
                state.turn,
            ) is None) ==> capture_victim(moved(state.board, from, to), to, state.turn)
            == victim_across(moved(state.board, from, to), to, edge, state.turn),
{
    let b1 = moved(state.board, from, to);
    lemma_victim_is_capturable(b1, to, state.turn);
    if forall|earlier: SquareEdge|
        earlier.scan_rank() < edge.scan_rank() ==> victim_across(b1, to, earlier, state.turn)
            is None {
        match edge {
            SquareEdge::North => {},
            SquareEdge::East => {
                assert(SquareEdge::North.scan_rank() < edge.scan_rank());
            },
            SquareEdge::South => {
                assert(SquareEdge::North.scan_rank() < edge.scan_rank());
                assert(SquareEdge::East.scan_rank() < edge.scan_rank());
            },
            SquareEdge::West => {
                assert(SquareEdge::North.scan_rank() < edge.scan_rank());
                assert(SquareEdge::East.scan_rank() < edge.scan_rank());
                assert(SquareEdge::South.scan_rank() < edge.scan_rank());
            },
        }
    }
}

/// A move that captures nothing changes nothing on the board but the place
/// of the moved piece.
pub proof fn lemma_quiet_move(state: GameView, from: BoardSquareCoords, to: BoardSquareCoords)
    requires
        capture_victim(moved(state.board, from, to), to, state.turn) is None,
    ensures
        state.after_move(from, to).board == moved(state.board, from, to),
        !state.after_move(from, to).murder_happened,
{
}

/// After a capture every guard of a player belongs to the other player and
/// every neutral guard to the side of the captured citizen; every magistrate
/// of a player belongs to the other player and a neutral magistrate to the
/// capturing side. Nothing else on the board changes but the place of the
/// moved piece and the captured citizen's square.
pub proof fn lemma_capture_flips_control(
    state: GameView,
    from: BoardSquareCoords,
    to: BoardSquareCoords,
    c: BoardSquareCoords,
)
    requires
        state.wf(),
        state.is_legal(from, to),
        capture_victim(moved(state.board, from, to), to, state.turn) is Some,
        state.board.squares.contains_key(c),
    ensures
        ({
            let before = moved(state.board, from, to);
            let victim = capture_victim(before, to, state.turn)->0;
            let victim_team = before.squares[victim].occupant.owner()->0;
            let after = state.after_move(from, to).board.squares[c].occupant;
            &&& victim_team != Team::Neutral
            &&& victim_team != state.turn
            &&& state.after_move(from, to).board.squares.contains_key(c)
            &&& c == victim ==> after is Empty
            &&& c != victim ==> match before.squares[c].occupant {
                SquareOccupant::Guard(Team::Purple) => after == SquareOccupant::Guard(Team::White),
                SquareOccupant::Guard(Team::White) => after == SquareOccupant::Guard(Team::Purple),
                SquareOccupant::Guard(Team::Neutral) => after == SquareOccupant::Guard(victim_team),
                SquareOccupant::Magistrate(Team::Purple) => after == SquareOccupant::Magistrate(
                    Team::White,
                ),
                SquareOccupant::Magistrate(Team::White) => after == SquareOccupant::Magistrate(
                    Team::Purple,
                ),
                SquareOccupant::Magistrate(Team::Neutral) => after == SquareOccupant::Magistrate(
                    state.turn,
                ),
                unchanged => after == unchanged,
            }
        }),
{
    let before = moved(state.board, from, to);
    lemma_victim_is_capturable(before, to, state.turn);
    assert(before.squares.contains_key(c));
}

/// After a move that is carried out, either both players still have a
/// citizen, the game goes on and the turn has passed to the other player; or
/// the game is over: drawn if neither has a citizen, else won by the player
/// who still has one. The turn never passes to `Neutral`.
pub proof fn lemma_turn_passes_or_game_ends(
    state: GameView,
    team: Team,
    from: BoardSquareCoords,
    to: BoardSquareCoords,
)
    requires
        state.wf(),
        state.accepts(team, from, to),
    ensures
        ({
            let next = state.after_move(from, to);
            let purple = has_citizen(next.board, Team::Purple);
            let white = has_citizen(next.board, Team::White);
            &&& next.turn != Team::Neutral
            &&& purple && white ==> next.game_over is None && next.turn == state.turn.other()
                && next.turn != state.turn
            &&& !purple && !white ==> next.game_over == Some(WinState::Draw)
            &&& !purple && white ==> next.game_over == Some(WinState::WhiteWin)
            &&& purple && !white ==> next.game_over == Some(WinState::PurpleWin)
            &&& !(purple && white) ==> next.turn == state.turn
        }),
{
}

/// Once the game is over no move is carried out.
pub proof fn lemma_no_move_after_the_end(
    state: GameView,
    team: Team,
    from: BoardSquareCoords,
    to: BoardSquareCoords,
)
    requires
        state.game_over is Some,
    ensures
        !state.accepts(team, from, to),
{
}

/// A game that is started over takes moves again: whatever came before, a
/// move of White, who moves first, is carried out exactly if it is legal.
pub proof fn lemma_fresh_game_takes_moves(
    board: BoardView,
    team: Team,
    from: BoardSquareCoords,
    to: BoardSquareCoords,
)
    ensures
        fresh_game(board).accepts(team, from, to) <==> team == Team::White && fresh_game(
            board,
        ).is_legal(from, to),
        board.wf() && board.citizens_have_players() ==> fresh_game(board).wf(),
{
}

} // verus!
