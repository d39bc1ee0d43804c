//! The rule engine: whose turn it is, which moves are legal, what a move
//! captures, how a capture changes who controls the guards and the
//! magistrate, and when the game is over.
use crate::board::{
    lemma_neighbours, Board, BoardSquareCoords, BoardView, Square, SquareEdge, SquareOccupant,
};
use crate::text::{chars_of, eq_ignoring_case, same_ignoring_case};
use vstd::prelude::*;

verus! {

/// A side. Purple and White are the two players; `Neutral` owns the guards
/// and the magistrate until the first capture and never takes a turn.
#[derive(Clone, Copy, Debug, PartialEq, Eq, Structural)]
pub enum Team {
    Purple,
    White,
    Neutral,
}

impl Team {
    /// The player that a team token names: `purple` or `white`, in any mix of
    /// upper and lower case. No token names `Neutral`.
    pub open spec fn from_text(s: Seq<char>) -> Option<Team> {
        if same_ignoring_case(s, "purple"@) {
            Some(Team::Purple)
        } else if same_ignoring_case(s, "white"@) {
            Some(Team::White)
        } else {
            None
        }
    }

    /// The other player. Only the two players have one.
    pub open spec fn other(self) -> Team
        recommends
            self != Team::Neutral,
    {
        match self {
            Team::Purple => Team::White,
            Team::White => Team::Purple,
            Team::Neutral => Team::Neutral,
        }
    }

    /// The team's name on the wire.
    pub open spec fn network_name(self) -> Seq<char> {
        match self {
            Team::Purple => "purple"@,
            Team::White => "white"@,
            Team::Neutral => "neutral"@,
        }
    }

    /// The team's name as shown to a player.
    pub open spec fn display_name(self) -> Seq<char> {
        match self {
            Team::Purple => "Purple"@,
            Team::White => "White"@,
            Team::Neutral => "Neutral"@,
        }
    }

    /// Reads a team token that is already cut into characters.
    pub fn from_chars(token: &Vec<char>) -> (r: Option<Team>)
        ensures
            r == Team::from_text(token@),
    {
        let purple = chars_of("purple");
        let white = chars_of("white");
        if eq_ignoring_case(token, &purple) {
            Some(Team::Purple)
        } else if eq_ignoring_case(token, &white) {
            Some(Team::White)
        } else {
            None
        }
    }

    /// Reads a team token.
    pub fn from_string(s: &str) -> (r: Option<Team>)
        ensures
            r == Team::from_text(s@),
    {
        let token = chars_of(s);
        Team::from_chars(&token)
    }

    /// The other player.
    pub fn opposite(&self) -> (r: Team)
        requires
            *self != Team::Neutral,
        ensures
            r == self.other(),
            r != Team::Neutral,
            r != *self,
    {
        match self {
            Team::Purple => Team::White,
            _ => Team::Purple,
        }
    }

    /// The team's name on the wire, in lower case.
    pub fn as_network_string(&self) -> (r: String)
        ensures
            r@ == self.network_name(),
    {
        match self {
            Team::Purple => String::from_str("purple"),
            Team::White => String::from_str("white"),
            Team::Neutral => String::from_str("neutral"),
        }
    }

    /// The team's name as shown to a player, capitalised.
    pub fn to_string(&self) -> (r: String)
        ensures
            r@ == self.display_name(),
    {
        match self {
            Team::Purple => String::from_str("Purple"),
            Team::White => String::from_str("White"),
            Team::Neutral => String::from_str("Neutral"),
        }
    }
}

/// The wire name of a player reads back as that player.
pub proof fn lemma_network_name_reads_back(team: Team)
    requires
        team != Team::Neutral,
    ensures
        Team::from_text(team.network_name()) == Some(team),
{
    reveal_strlit("purple");
    reveal_strlit("white");
    if team == Team::White {
        assert(crate::text::lower("white"@).len() != crate::text::lower("purple"@).len());
    }
}

/// How a finished game ended.
#[derive(Clone, Copy, Debug, PartialEq, Eq, Structural)]
pub enum WinState {
    PurpleWin,
    WhiteWin,
    Draw,
}

/// The game as a mathematical object.
pub struct GameView {
    pub turn: Team,
    pub board: BoardView,
    pub game_over: Option<WinState>,
    pub murder_happened: bool,
}

/// `from` and `to` lie in one row or in one column.
pub open spec fn axis_aligned(from: BoardSquareCoords, to: BoardSquareCoords) -> bool {
    from.0 == to.0 || from.1 == to.1
}

/// The number of steps from `from` to `to` along their common row or column.
pub open spec fn distance(from: BoardSquareCoords, to: BoardSquareCoords) -> nat
    recommends
        axis_aligned(from, to),
{
    if to.0 > from.0 {
        (to.0 - from.0) as nat
    } else if to.0 < from.0 {
        (from.0 - to.0) as nat
    } else if to.1 > from.1 {
        (to.1 - from.1) as nat
    } else {
        (from.1 - to.1) as nat
    }
}

/// The square reached after `k` steps from `from` towards `to`.
pub open spec fn path_cell(from: BoardSquareCoords, to: BoardSquareCoords, k: int) -> BoardSquareCoords
    recommends
        axis_aligned(from, to),
        0 <= k <= distance(from, to),
{
    if to.0 > from.0 {
        BoardSquareCoords((from.0 + k) as u32, from.1)
    } else if to.0 < from.0 {
        BoardSquareCoords((from.0 - k) as u32, from.1)
    } else if to.1 > from.1 {
        BoardSquareCoords(from.0, (from.1 + k) as u32)
    } else {
        BoardSquareCoords(from.0, (from.1 - k) as u32)
    }
}

/// The side through which a piece going from `from` towards `to` enters
/// each square: the side that faces the square it comes from.
pub open spec fn entry_edge(from: BoardSquareCoords, to: BoardSquareCoords) -> SquareEdge
    recommends
        axis_aligned(from, to),
{
    if to.0 > from.0 {
        SquareEdge::West
    } else if to.0 < from.0 {
        SquareEdge::East
    } else if to.1 > from.1 {
        SquareEdge::North
    } else {
        SquareEdge::South
    }
}

/// A piece may step into `c` through the side `edge`: the board has a square
/// there, that side carries no wall, and nothing stands on the square.
pub open spec fn can_enter(board: BoardView, c: BoardSquareCoords, edge: SquareEdge) -> bool {
    &&& board.squares.contains_key(c)
    &&& !board.squares[c].wall.has(edge)
    &&& board.squares[c].occupant is Empty
}

/// Every square on the way from `from` to `to`, `to` included and `from`
/// not, can be entered.
pub open spec fn path_clear(board: BoardView, from: BoardSquareCoords, to: BoardSquareCoords) -> bool
    recommends
        axis_aligned(from, to),
{
    forall|k: int|
        1 <= k <= distance(from, to) ==> can_enter(
            board,
            #[trigger] path_cell(from, to, k),
            entry_edge(from, to),
        )
}

/// Seen from a citizen, the neighbouring square `sq` across the citizen's
/// side `edge` is a way out against the player `mover`: the neighbour has no
/// wall on the side that faces the citizen, and it is empty or holds a guard
/// or citizen that `mover` does not control. A magistrate is never a way out.
pub open spec fn is_escape(sq: Square, edge: SquareEdge, mover: Team) -> bool {
    &&& !sq.wall.has(edge.opposite())
    &&& match sq.occupant {
        SquareOccupant::Empty => true,
        SquareOccupant::Magistrate(_) => false,
        SquareOccupant::Guard(t) => t != mover,
        SquareOccupant::Citizen(t) => t != mover,
    }
}

/// The side `edge` of the square at `pos` offers no way out against `mover`:
/// the board ends there, or the neighbour across it is no escape.
pub open spec fn side_blocked(
    board: BoardView,
    pos: BoardSquareCoords,
    edge: SquareEdge,
    mover: Team,
) -> bool {
    match board.neighbour(pos, edge) {
        Some(n) => !is_escape(board.squares[n], edge, mover),
        None => true,
    }
}

/// All four sides of the square at `pos` are blocked against `mover`.
pub open spec fn surrounded(board: BoardView, pos: BoardSquareCoords, mover: Team) -> bool {
    &&& side_blocked(board, pos, SquareEdge::North, mover)
    &&& side_blocked(board, pos, SquareEdge::East, mover)
    &&& side_blocked(board, pos, SquareEdge::South, mover)
    &&& side_blocked(board, pos, SquareEdge::West, mover)
}

/// The square at `pos` holds a citizen of another team than `mover` that is
/// surrounded.
pub open spec fn capturable(board: BoardView, pos: BoardSquareCoords, mover: Team) -> bool {
    &&& board.squares.contains_key(pos)
    &&& board.squares[pos].occupant matches SquareOccupant::Citizen(t)
    &&& t != mover
    &&& surrounded(board, pos, mover)
}

/// The neighbour of `to` across `edge`, if `mover` captures it.
pub open spec fn victim_across(
    board: BoardView,
    to: BoardSquareCoords,
    edge: SquareEdge,
    mover: Team,
) -> Option<BoardSquareCoords> {
    match board.neighbour(to, edge) {
        Some(n) => if capturable(board, n, mover) {
            Some(n)
        } else {
            None
        },
        None => None,
    }
}

/// The citizen that a piece of `mover` captures by arriving at `to`: the
/// first capturable neighbour of `to`, looking north, east, south and west
/// in that order. One move captures at most one citizen.
pub open spec fn capture_victim(board: BoardView, to: BoardSquareCoords, mover: Team) -> Option<
    BoardSquareCoords,
> {
    if victim_across(board, to, SquareEdge::North, mover) is Some {
        victim_across(board, to, SquareEdge::North, mover)
    } else if victim_across(board, to, SquareEdge::East, mover) is Some {
        victim_across(board, to, SquareEdge::East, mover)
    } else if victim_across(board, to, SquareEdge::South, mover) is Some {
        victim_across(board, to, SquareEdge::South, mover)
    } else {
        victim_across(board, to, SquareEdge::West, mover)
    }
}

/// What a capture makes of a piece, `victim_team` being the team of the
/// captured citizen. A guard of a player goes to the other player, a neutral
/// guard to the victim's side. A magistrate of a player goes to the other
/// player, a neutral magistrate to the capturing side. A citizen stays as it
/// is, and so does an empty square.
pub open spec fn flip_piece(occupant: SquareOccupant, victim_team: Team) -> SquareOccupant {
    match occupant {
        SquareOccupant::Guard(t) => SquareOccupant::Guard(
            match t {
                Team::Purple => Team::White,
                Team::White => Team::Purple,
                Team::Neutral => victim_team,
            },
        ),
        SquareOccupant::Magistrate(t) => SquareOccupant::Magistrate(
            match t {
                Team::Purple => Team::White,
                Team::White => Team::Purple,
                Team::Neutral => victim_team.other(),
            },
        ),
        other => other,
    }
}

/// What a capture makes of a square: its piece changes hands, its walls
/// stay.
pub open spec fn flip_square(sq: Square, victim_team: Team) -> Square {
    Square { occupant: flip_piece(sq.occupant, victim_team), wall: sq.wall }
}

/// The board after a capture of a citizen of `victim_team`: every square
/// flipped.
pub open spec fn flipped(board: BoardView, victim_team: Team) -> BoardView {
    BoardView {
        squares: Map::new(
            |c: BoardSquareCoords| board.squares.contains_key(c),
            |c: BoardSquareCoords| flip_square(board.squares[c], victim_team),
        ),
        width: board.width,
        height: board.height,
    }
}

/// `team` has a citizen left on the board.
pub open spec fn has_citizen(board: BoardView, team: Team) -> bool {
    exists|c: BoardSquareCoords| #[trigger]
        board.squares.contains_key(c) && board.squares[c].occupant == SquareOccupant::Citizen(
            team,
        )
}

/// The board with the piece at `from` moved to `to`.
pub open spec fn moved(board: BoardView, from: BoardSquareCoords, to: BoardSquareCoords) -> BoardView {
    board.with_occupant(to, board.squares[from].occupant).with_occupant(
        from,
        SquareOccupant::Empty,
    )
}

impl GameView {
    /// The state is one that play can continue from: the board is a full
    /// grid, it is a player's turn, and every citizen belongs to a player.
    pub open spec fn wf(self) -> bool {
        &&& self.board.wf()
        &&& self.turn != Team::Neutral
        &&& self.board.citizens_have_players()
    }

    /// The player to move may move the piece at `from` to `to`: the two lie
    /// in one row or column, the piece at `from` is controlled by the player
    /// to move, the square at `to` is empty, and the way is clear.
    pub open spec fn is_legal(self, from: BoardSquareCoords, to: BoardSquareCoords) -> bool {
        &&& axis_aligned(from, to)
        &&& self.board.squares.contains_key(from)
        &&& self.board.squares[from].occupant.owner() == Some(self.turn)
        &&& self.board.squares.contains_key(to)
        &&& self.board.squares[to].occupant is Empty
        &&& path_clear(self.board, from, to)
    }

    /// The move of `team` from `from` to `to` is carried out: the game is
    /// not over, it is `team`'s turn, and the move is legal.
    pub open spec fn accepts(self, team: Team, from: BoardSquareCoords, to: BoardSquareCoords) -> bool {
        &&& self.game_over is None
        &&& team == self.turn
        &&& self.is_legal(from, to)
    }

    /// The state after the citizen at `victim` is taken off the board: the
    /// square is empty, every guard and magistrate has changed hands, and the
    /// capture is recorded.
    pub open spec fn after_capture(self, victim: BoardSquareCoords) -> GameView {
        GameView {
            board: flipped(
                self.board.with_occupant(victim, SquareOccupant::Empty),
                self.board.squares[victim].occupant.owner()->0,
            ),
            murder_happened: true,
            ..self
        }
    }

    /// The state after the turn ends. With no citizen left on either side
    /// the game is drawn; with none left on one side the other side has won;
    /// otherwise the turn passes to the other player.
    pub open spec fn after_end_turn(self) -> GameView {
        let purple = has_citizen(self.board, Team::Purple);
        let white = has_citizen(self.board, Team::White);
        if !purple && !white {
            GameView { game_over: Some(WinState::Draw), ..self }
        } else if !purple {
            GameView { game_over: Some(WinState::WhiteWin), ..self }
        } else if !white {
            GameView { game_over: Some(WinState::PurpleWin), ..self }
        } else {
            GameView { turn: self.turn.other(), ..self }
        }
    }

    /// The state after the player to move has moved the piece at `from` to
    /// `to`: the piece stands at `to`, a citizen that it captures is taken
    /// off, whether it captured one is recorded, and the turn has ended.
    pub open spec fn after_move(self, from: BoardSquareCoords, to: BoardSquareCoords) -> GameView {
        let relocated = GameView {
            board: moved(self.board, from, to),
            murder_happened: false,
            ..self
        };
        match capture_victim(relocated.board, to, self.turn) {
            Some(victim) => relocated.after_capture(victim).after_end_turn(),
            None => relocated.after_end_turn(),
        }
    }
}

/// A game in progress.
pub struct GameState {
    /// The player to move.
    pub turn: Team,
    pub board: Board,
    /// How the game ended, once it has.
    pub game_over: Option<WinState>,
    /// Whether the last move that was carried out captured a citizen.
    pub murder_happened: bool,
}

impl View for GameState {
    type V = GameView;

    open spec fn view(&self) -> GameView {
        GameView {
            turn: self.turn,
            board: self.board@,
            game_over: self.game_over,
            murder_happened: self.murder_happened,
        }
    }
}

/// The start of a game on `board`: White moves first, nobody has won, and
/// no move has captured anything.
pub open spec fn fresh_game(board: BoardView) -> GameView {
    GameView { turn: Team::White, board, game_over: None, murder_happened: false }
}

/// Walks from `from` to `to` along their common row or column and says
/// whether every square on the way, `to` included, can be entered. The two
/// must share a row or a column.
pub fn is_path_clear(board: &Board, from: BoardSquareCoords, to: BoardSquareCoords) -> (r: bool)
    requires
        axis_aligned(from, to),
    ensures
        r == path_clear(board@, from, to),
{
    let edge = if to.0 > from.0 {
        SquareEdge::West
    } else if to.0 < from.0 {
        SquareEdge::East
    } else if to.1 > from.1 {
        SquareEdge::North
    } else {
        SquareEdge::South
    };
    let mut current = from;
    let ghost mut k: int = 0;
    while current != to
        invariant
            axis_aligned(from, to),
            0 <= k <= distance(from, to),
            current == path_cell(from, to, k),
            current == to <==> k == distance(from, to),
            edge == entry_edge(from, to),
            forall|j: int| 1 <= j <= k ==> can_enter(board@, #[trigger] path_cell(from, to, j), edge),
        decreases distance(from, to) - k,
    {
        if to.0 > from.0 {
            current.0 = current.0 + 1;
        } else if to.0 < from.0 {
            current.0 = current.0 - 1;
        } else if to.1 > from.1 {
            current.1 = current.1 + 1;
        } else {
            current.1 = current.1 - 1;
        }
        proof {
            k = k + 1;
        }
        match board.get(current) {
            Some(square) => {
                if square.wall.contains(&edge) || square.occupant != SquareOccupant::Empty {
                    assert(!can_enter(board@, path_cell(from, to, k), edge));
                    return false;
                }
            },
            None => {
                assert(!can_enter(board@, path_cell(from, to, k), edge));
                return false;
            },
        }
    }
    true
}

impl GameState {
    /// Starts a game on `board`.
    pub fn new(board: Board) -> (r: GameState)
        ensures
            r@ == fresh_game(board@),
            r.board == board,
            board.wf() && board@.citizens_have_players() ==> r.wf(),
    {
        GameState { turn: Team::White, game_over: None, board, murder_happened: false }
    }

    /// Starts the game over on `board`.
    pub fn reset(&mut self, board: Board)
        ensures
            final(self)@ == fresh_game(board@),
            final(self).board == board,
            board.wf() && board@.citizens_have_players() ==> final(self).wf(),
    {
        self.turn = Team::White;
        self.game_over = None;
        self.board = board;
        self.murder_happened = false;
    }

    /// The board.
    pub fn get_board(&self) -> (r: &Board)
        ensures
            *r == self.board,
    {
        &self.board
    }

    /// The player to move.
    pub fn get_turn(&self) -> (r: &Team)
        ensures
            *r == self.turn,
    {
        &self.turn
    }

    /// The up to four neighbours of `pos` on the board, each with the side
    /// of `pos` that it lies across, in the order north, east, south, west.
    pub fn check_neighbours(&self, pos: BoardSquareCoords) -> (r: Vec<
        (SquareEdge, BoardSquareCoords),
    >)
        ensures
            r@ == self@.board.neighbours(pos),
    {
        self.board.neighbours(pos)
    }

    /// Whether the player to move may move the piece at `from` to `to`.
    pub fn valid_move(&self, from: BoardSquareCoords, to: BoardSquareCoords) -> (r: bool)
        ensures
            r == self@.is_legal(from, to),
    {
        match self.board.get(to) {
            Some(to_square) => {
                if to_square.occupant != SquareOccupant::Empty {
                    return false;
                }
            },
            None => {
                return false;
            },
        }
        match self.board.get(from) {
            Some(from_square) => {
                match from_square.occupant.get_owner() {
                    Some(team) => {
                        if team == self.turn && (from.0 == to.0 || from.1 == to.1) {
                            is_path_clear(&self.board, from, to)
                        } else {
                            false
                        }
                    },
                    None => false,
                }
            },
            None => false,
        }
    }
}

/// Whether `team` has a citizen left on `board`.
pub fn team_has_citizen(board: &Board, team: Team) -> (r: bool)
    ensures
        r == has_citizen(board@, team),
{
    let mut y: usize = 0;
    while y < board.squares.len() && y <= u32::MAX as usize
        invariant
            y <= board.squares.len(),
            forall|c: BoardSquareCoords|
                c.1 < y && #[trigger] board@.squares.contains_key(c) ==> board@.squares[c].occupant
                    != SquareOccupant::Citizen(team),
        decreases board.squares.len() - y,
    {
        let row = &board.squares[y];
        let mut x: usize = 0;
        while x < row.len() && x <= u32::MAX as usize
            invariant
                x <= row.len(),
                y < board.squares.len(),
                y <= u32::MAX,
                *row == board.squares[y as int],
                forall|c: BoardSquareCoords|
                    c.1 < y && #[trigger] board@.squares.contains_key(c)
                        ==> board@.squares[c].occupant != SquareOccupant::Citizen(team),
                forall|c: BoardSquareCoords|
                    c.1 == y && c.0 < x && #[trigger] board@.squares.contains_key(c)
                        ==> board@.squares[c].occupant != SquareOccupant::Citizen(team),
            decreases row.len() - x,
        {
            if row[x].occupant == SquareOccupant::Citizen(team) {
                proof {
                    let c = BoardSquareCoords(x as u32, y as u32);
                    assert(board@.squares.contains_key(c));
                    assert(board@.squares[c].occupant == SquareOccupant::Citizen(team));
                }
                return true;
            }
            x += 1;
        }
        y += 1;
    }
    false
}

/// What a capture of a citizen of `victim_team` makes of a piece.
pub fn flip_occupant(occupant: SquareOccupant, victim_team: Team) -> (r: SquareOccupant)
    requires
        victim_team != Team::Neutral,
    ensures
        r == flip_piece(occupant, victim_team),
{
    match occupant {
        SquareOccupant::Guard(team) => {
            let new_team = match team {
                Team::Purple => Team::White,
                Team::White => Team::Purple,
                Team::Neutral => victim_team,
            };
            SquareOccupant::Guard(new_team)
        },
        SquareOccupant::Magistrate(team) => {
            let new_team = match team {
                Team::Purple => Team::White,
                Team::White => Team::Purple,
                Team::Neutral => victim_team.opposite(),
            };
            SquareOccupant::Magistrate(new_team)
        },
        other => other,
    }
}

impl GameState {
    /// Hands the guards and the magistrate over after a capture of a citizen
    /// of `victim_team`: on every square of the board, a guard or magistrate
    /// of a player goes to the other player, a neutral guard goes to
    /// `victim_team`, and a neutral magistrate to the other player.
    pub fn flip_guards(&mut self, victim_team: Team)
        requires
            victim_team != Team::Neutral,
        ensures
            final(self)@ == (GameView {
                board: flipped(old(self)@.board, victim_team),
                ..old(self)@
            }),
            final(self).board.same_shape(old(self).board),
    {
        let ghost before = *self;
        let mut y: usize = 0;
        while y < self.board.squares.len()
            invariant
                victim_team != Team::Neutral,
                y <= self.board.squares.len(),
                self.turn == before.turn,
                self.game_over == before.game_over,
                self.murder_happened == before.murder_happened,
                self.board.width == before.board.width,
                self.board.height == before.board.height,
                self.board.squares.len() == before.board.squares.len(),
                forall|j: int|
                    0 <= j < self.board.squares.len() ==> (#[trigger] self.board.squares[j]).len()
                        == before.board.squares[j].len(),
                forall|j: int, i: int|
                    0 <= j < y && 0 <= i < self.board.squares[j].len()
                        ==> #[trigger] self.board.squares[j][i] == flip_square(
                        before.board.squares[j][i],
                        victim_team,
                    ),
                forall|j: int, i: int|
                    y <= j < self.board.squares.len() && 0 <= i < self.board.squares[j].len()
                        ==> #[trigger] self.board.squares[j][i] == before.board.squares[j][i],
            decreases self.board.squares.len() - y,
        {
            let mut x: usize = 0;
            while x < self.board.squares[y].len()
                invariant
                    victim_team != Team::Neutral,
                    y < self.board.squares.len(),
                    x <= self.board.squares[y as int].len(),
                    self.turn == before.turn,
                    self.game_over == before.game_over,
                    self.murder_happened == before.murder_happened,
                    self.board.width == before.board.width,
                    self.board.height == before.board.height,
                    self.board.squares.len() == before.board.squares.len(),
                    forall|j: int|
                        0 <= j < self.board.squares.len() ==> (#[trigger] self.board.squares[j]).len()
                            == before.board.squares[j].len(),
                    forall|j: int, i: int|
                        0 <= j < y && 0 <= i < self.board.squares[j].len()
                            ==> #[trigger] self.board.squares[j][i] == flip_square(
                            before.board.squares[j][i],
                            victim_team,
                        ),
                    forall|i: int|
                        0 <= i < x ==> #[trigger] self.board.squares[y as int][i] == flip_square(
                            before.board.squares[y as int][i],
                            victim_team,
                        ),
                    forall|i: int|
                        x <= i < self.board.squares[y as int].len()
                            ==> #[trigger] self.board.squares[y as int][i]
                            == before.board.squares[y as int][i],
                    forall|j: int, i: int|
                        y < j < self.board.squares.len() && 0 <= i < self.board.squares[j].len()
                            ==> #[trigger] self.board.squares[j][i] == before.board.squares[j][i],
                decreases self.board.squares[y as int].len() - x,
            {
                let occupant = self.board.squares[y][x].occupant;
                self.board.squares[y][x].occupant = flip_occupant(occupant, victim_team);
                x += 1;
            }
            y += 1;
        }
        proof {
            assert(self@.board.squares =~= flipped(before@.board, victim_team).squares);
        }
    }

    /// Ends the turn. With no citizen left on either side the game is
    /// drawn; with none left on one side the other side has won; otherwise
    /// the turn passes to the other player.
    pub fn end_turn(&mut self)
        requires
            old(self).turn != Team::Neutral,
        ensures
            final(self)@ == old(self)@.after_end_turn(),
            final(self).board == old(self).board,
    {
        let purple = team_has_citizen(&self.board, Team::Purple);
        let white = team_has_citizen(&self.board, Team::White);
        if !purple && !white {
            self.game_over = Some(WinState::Draw);
        } else if !purple {
            self.game_over = Some(WinState::WhiteWin);
        } else if !white {
            self.game_over = Some(WinState::PurpleWin);
        } else {
            self.turn = self.turn.opposite();
        }
    }

    /// Whether the neighbouring square `neighbour`, across the side `dir` of
    /// a citizen, is a way out for that citizen against the player to move.
    fn offers_escape(&self, neighbour: &Square, dir: &SquareEdge) -> (r: bool)
        ensures
            r == is_escape(*neighbour, *dir, self.turn),
    {
        let opposite_dir = dir.get_opposite();
        !neighbour.wall.contains(&opposite_dir) && match neighbour.occupant {
            SquareOccupant::Empty => true,
            SquareOccupant::Magistrate(_) => false,
            SquareOccupant::Guard(team) => team != self.turn,
            SquareOccupant::Citizen(team) => team != self.turn,
        }
    }

    /// Whether all four sides of the square at `pos` are blocked against the
    /// player to move: no neighbour of `pos` is a way out.
    pub fn is_surrounded(&self, pos: BoardSquareCoords) -> (r: bool)
        ensures
            r == surrounded(self@.board, pos, self.turn),
    {
        let neighbours = self.check_neighbours(pos);
        let mut i: usize = 0;
        while i < neighbours.len()
            invariant
                i <= neighbours.len(),
                neighbours@ == self@.board.neighbours(pos),
                forall|j: int|
                    0 <= j < i ==> !is_escape(
                        self@.board.squares[(#[trigger] neighbours@[j]).1],
                        neighbours@[j].0,
                        self.turn,
                    ),
            decreases neighbours.len() - i,
        {
            let (dir, position) = neighbours[i];
            proof {
                lemma_neighbours(self@.board, pos);
                assert(self@.board.neighbour(pos, neighbours@[i as int].0) == Some(position));
            }
            if let Some(neighbour) = self.board.get(position) {
                if self.offers_escape(neighbour, &dir) {
                    assert(!side_blocked(self@.board, pos, dir, self.turn));
                    return false;
                }
            }
            i += 1;
        }
        proof {
            lemma_no_escape_is_surrounded(self@.board, pos, self.turn);
        }
        true
    }

    /// The citizen that a piece of the player to move captures by arriving
    /// at `to`, if any: the first neighbour of `to` that holds a surrounded
    /// citizen of another team.
    pub fn find_victim(&self, to: BoardSquareCoords) -> (r: Option<BoardSquareCoords>)
        ensures
            r == capture_victim(self@.board, to, self.turn),
    {
        let neighbours = self.check_neighbours(to);
        let mut i: usize = 0;
        while i < neighbours.len()
            invariant
                i <= neighbours.len(),
                neighbours@ == self@.board.neighbours(to),
                forall|j: int|
                    0 <= j < i ==> !capturable(
                        self@.board,
                        (#[trigger] neighbours@[j]).1,
                        self.turn,
                    ),
            decreases neighbours.len() - i,
        {
            let (_, position) = neighbours[i];
            if let Some(neighbour) = self.board.get(position) {
                if let SquareOccupant::Citizen(team) = neighbour.occupant {
                    if team != self.turn && self.is_surrounded(position) {
                        proof {
                            lemma_first_capturable_is_victim(self@.board, to, self.turn, i as int);
                        }
                        return Some(position);
                    }
                }
            }
            i += 1;
        }
        proof {
            lemma_none_capturable_no_victim(self@.board, to, self.turn);
        }
        None
    }
}

/// A square none of whose neighbours is a way out is surrounded.
pub proof fn lemma_no_escape_is_surrounded(board: BoardView, pos: BoardSquareCoords, mover: Team)
    requires
        forall|j: int|
            0 <= j < board.neighbours(pos).len() ==> !is_escape(
                board.squares[(#[trigger] board.neighbours(pos)[j]).1],
                board.neighbours(pos)[j].0,
                mover,
            ),
    ensures
        surrounded(board, pos, mover),
{
    lemma_neighbours(board, pos);
    assert forall|edge: SquareEdge| side_blocked(board, pos, edge, mover) by {
        if board.neighbour(pos, edge) is Some {
            let j = choose|j: int|
                0 <= j < board.neighbours(pos).len() && #[trigger] board.neighbours(pos)[j] == (
                    edge,
                    board.neighbour(pos, edge)->0,
                );
            assert(!is_escape(board.squares[board.neighbours(pos)[j].1], edge, mover));
        }
    }
    assert(side_blocked(board, pos, SquareEdge::North, mover));
    assert(side_blocked(board, pos, SquareEdge::East, mover));
    assert(side_blocked(board, pos, SquareEdge::South, mover));
    assert(side_blocked(board, pos, SquareEdge::West, mover));
}

/// The first neighbour in the list that can be captured is the one that the
/// move captures.
pub proof fn lemma_first_capturable_is_victim(
    board: BoardView,
    to: BoardSquareCoords,
    mover: Team,
    i: int,
)
    requires
        0 <= i < board.neighbours(to).len(),
        capturable(board, board.neighbours(to)[i].1, mover),
        forall|j: int|
            0 <= j < i ==> !capturable(board, (#[trigger] board.neighbours(to)[j]).1, mover),
    ensures
        capture_victim(board, to, mover) == Some(board.neighbours(to)[i].1),
{
    lemma_neighbours(board, to);
    let list = board.neighbours(to);
    let edge = list[i].0;
    assert(board.neighbour(to, edge) == Some(list[i].1));
    assert(victim_across(board, to, edge, mover) == Some(list[i].1));
    assert forall|earlier: SquareEdge|
        earlier.scan_rank() < edge.scan_rank() implies victim_across(board, to, earlier, mover)
        is None by {
        if board.neighbour(to, earlier) is Some {
            let j = choose|j: int|
                0 <= j < list.len() && #[trigger] list[j] == (
                    earlier,
                    board.neighbour(to, earlier)->0,
                );
            if j > i {
                assert(list[i].0.scan_rank() < list[j].0.scan_rank());
            }
            assert(j < i);
            assert(!capturable(board, list[j].1, mover));
        }
    }
    match edge {
        SquareEdge::North => {},
        SquareEdge::East => {
            assert(SquareEdge::North.scan_rank() < edge.scan_rank());
        },
        SquareEdge::South => {
            assert(SquareEdge::North.scan_rank() < edge.scan_rank());
            assert(SquareEdge::East.scan_rank() < edge.scan_rank());
        },
        SquareEdge::West => {
            assert(SquareEdge::North.scan_rank() < edge.scan_rank());
            assert(SquareEdge::East.scan_rank() < edge.scan_rank());
            assert(SquareEdge::South.scan_rank() < edge.scan_rank());
        },
    }
}

/// Where no neighbour in the list can be captured, the move captures
/// nothing.
pub proof fn lemma_none_capturable_no_victim(board: BoardView, to: BoardSquareCoords, mover: Team)
    requires
        forall|j: int|
            0 <= j < board.neighbours(to).len() ==> !capturable(
                board,
                (#[trigger] board.neighbours(to)[j]).1,
                mover,
            ),
    ensures
        capture_victim(board, to, mover) is None,
{
    lemma_neighbours(board, to);
    let list = board.neighbours(to);
    assert forall|edge: SquareEdge| victim_across(board, to, edge, mover) is None by {
        if board.neighbour(to, edge) is Some {
            let j = choose|j: int|
                0 <= j < list.len() && #[trigger] list[j] == (edge, board.neighbour(to, edge)->0);
            assert(!capturable(board, list[j].1, mover));
        }
    }
    assert(victim_across(board, to, SquareEdge::North, mover) is None);
    assert(victim_across(board, to, SquareEdge::East, mover) is None);
    assert(victim_across(board, to, SquareEdge::South, mover) is None);
    assert(victim_across(board, to, SquareEdge::West, mover) is None);
}

/// A legal move leaves a state that play can continue from.
pub proof fn lemma_move_keeps_wf(state: GameView, from: BoardSquareCoords, to: BoardSquareCoords)
    requires
        state.wf(),
        state.is_legal(from, to),
    ensures
        state.after_move(from, to).wf(),
{
    let b1 = moved(state.board, from, to);
    assert(b1.wf() && b1.citizens_have_players()) by {
        assert forall|c: BoardSquareCoords| #[trigger] b1.squares.contains_key(c) implies state.board.squares.contains_key(c) by {}
    }
    let relocated = GameView { board: b1, ..state };
    match capture_victim(b1, to, state.turn) {
        Some(victim) => {
            let b2 = b1.with_occupant(victim, SquareOccupant::Empty);
            let team = b1.squares[victim].occupant.owner()->0;
            let b3 = flipped(b2, team);
            assert(b3.wf() && b3.citizens_have_players()) by {
                assert forall|c: BoardSquareCoords| #[trigger] b3.squares.contains_key(c) implies b1.squares.contains_key(c) by {}
            }
        },
        None => {},
    }
}

impl GameState {
    /// The state is one that play can continue from: the board's rows agree
    /// with its size, it is a player's turn, and every citizen belongs to a
    /// player.
    pub open spec fn wf(&self) -> bool {
        &&& self.board.wf()
        &&& self.turn != Team::Neutral
        &&& self@.board.citizens_have_players()
    }

    /// A state that play can continue from is one as a mathematical object
    /// too.
    pub proof fn lemma_wf_view(self)
        requires
            self.wf(),
        ensures
            self@.wf(),
    {
    }

    /// Whether the state is one that play can continue from.
    pub fn is_well_formed(&self) -> (r: bool)
        ensures
            r == self.wf(),
    {
        if self.turn == Team::Neutral {
            return false;
        }
        if self.board.squares.len() != self.board.height as usize {
            return false;
        }
        let mut y: usize = 0;
        while y < self.board.squares.len()
            invariant
                y <= self.board.squares.len(),
                self.board.squares.len() == self.board.height,
                self.turn != Team::Neutral,
                forall|j: int|
                    0 <= j < y ==> (#[trigger] self.board.squares[j]).len() == self.board.width,
                forall|c: BoardSquareCoords|
                    c.1 < y && #[trigger] self@.board.squares.contains_key(c)
                        ==> self@.board.squares[c].occupant != SquareOccupant::Citizen(
                        Team::Neutral,
                    ),
            decreases self.board.squares.len() - y,
        {
            let row = &self.board.squares[y];
            if row.len() != self.board.width as usize {
                return false;
            }
            let mut x: usize = 0;
            while x < row.len()
                invariant
                    x <= row.len(),
                    y < self.board.squares.len(),
                    self.board.squares.len() == self.board.height,
                    *row == self.board.squares[y as int],
                    row.len() == self.board.width,
                    forall|c: BoardSquareCoords|
                        c.1 == y && c.0 < x && #[trigger] self@.board.squares.contains_key(c)
                            ==> self@.board.squares[c].occupant != SquareOccupant::Citizen(
                            Team::Neutral,
                        ),
                decreases row.len() - x,
            {
                if row[x].occupant == SquareOccupant::Citizen(Team::Neutral) {
                    proof {
                        let c = BoardSquareCoords(x as u32, y as u32);
                        assert(self@.board.squares.contains_key(c));
                    }
                    return false;
                }
                x += 1;
            }
            y += 1;
        }
        true
    }

    /// Carries out the move of `team` from `from` to `to`, if the game is
    /// not over, it is `team`'s turn and the move is legal: the piece goes
    /// to `to`, a citizen that it captures is taken off and the guards and
    /// the magistrate change hands, `murder_happened` says whether it
    /// captured one, and the turn ends. Returns whether the move was carried
    /// out; where it was not, nothing changes.
    pub fn make_move(&mut self, team: Team, from: BoardSquareCoords, to: BoardSquareCoords) -> (ok:
        bool)
        requires
            old(self).wf(),
        ensures
            ok == old(self)@.accepts(team, from, to),
            ok ==> final(self)@ == old(self)@.after_move(from, to),
            !ok ==> final(self)@ == old(self)@,
            final(self).wf(),
    {
        if self.game_over.is_some() || team != self.turn || !self.valid_move(from, to) {
            return false;
        }
        proof {
            lemma_move_keeps_wf(self@, from, to);
        }
        let piece = match self.board.get(from) {
            Some(square) => square.occupant,
            None => SquareOccupant::Empty,
        };
        self.murder_happened = false;
        self.board.set_occupant(to, piece);
        assert(self.board.same_shape(old(self).board));
        self.board.set_occupant(from, SquareOccupant::Empty);
        assert(self.board.same_shape(old(self).board));
        assert(self@.board == moved(old(self)@.board, from, to));
        if let Some(victim_location) = self.find_victim(to) {
            let victim_team = match self.board.get(victim_location) {
                Some(square) => match square.occupant {
                    SquareOccupant::Citizen(t) => t,
                    _ => self.turn,
                },
                None => self.turn,
            };
            self.murder_happened = true;
            self.board.set_occupant(victim_location, SquareOccupant::Empty);
            assert(self.board.same_shape(old(self).board));
            self.flip_guards(victim_team);
            assert(self.board.same_shape(old(self).board));
        }
        self.end_turn();
        true
    }
}

} // verus!
