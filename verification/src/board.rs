//! Board geometry: squares with their occupants and walls, coordinates, and
//! the board read from a map text.
use crate::game::Team;
use crate::text::{
    chars_of, decimal, first_index_of, hex_value, is_digit, lemma_decimal_round_trip,
    lemma_first_index_unique, lines, parse_hex_digit, parse_u32, parse_u32_spec, push_decimal,
    split_lines, sub_chars, views,
};
use vstd::prelude::*;

verus! {

/// What stands on a square.
#[derive(Clone, Copy, Debug, PartialEq, Eq, Structural)]
pub enum SquareOccupant {
    Empty,
    /// Guards are controlled by one player at a time and change sides with
    /// every capture.
    Guard(Team),
    /// Citizens belong to a player; a player without citizens has lost.
    Citizen(Team),
    /// The magistrate is controlled by the player who does not control the
    /// guards. It captures nothing and cannot be captured, but it blocks.
    Magistrate(Team),
}

impl SquareOccupant {
    /// The team that controls the piece; `None` for an empty square.
    pub open spec fn owner(self) -> Option<Team> {
        match self {
            SquareOccupant::Empty => None,
            SquareOccupant::Guard(t) => Some(t),
            SquareOccupant::Citizen(t) => Some(t),
            SquareOccupant::Magistrate(t) => Some(t),
        }
    }

    /// The team that controls the piece; `None` for an empty square.
    pub fn get_owner(&self) -> (r: Option<Team>)
        ensures
            r == self.owner(),
    {
        match self {
            SquareOccupant::Empty => None,
            SquareOccupant::Guard(t) => Some(*t),
            SquareOccupant::Citizen(t) => Some(*t),
            SquareOccupant::Magistrate(t) => Some(*t),
        }
    }
}

/// One of the four sides of a square.
#[derive(Clone, Copy, Debug, PartialEq, Eq, Hash, Structural)]
pub enum SquareEdge {
    North,
    East,
    South,
    West,
}

impl SquareEdge {
    /// The side across: north and south, east and west.
    pub open spec fn opposite(self) -> SquareEdge {
        match self {
            SquareEdge::North => SquareEdge::South,
            SquareEdge::East => SquareEdge::West,
            SquareEdge::South => SquareEdge::North,
            SquareEdge::West => SquareEdge::East,
        }
    }

    /// The place of the side in the order in which the neighbours of a
    /// square are listed: north, east, south, west.
    pub open spec fn scan_rank(self) -> int {
        match self {
            SquareEdge::North => 0,
            SquareEdge::East => 1,
            SquareEdge::South => 2,
            SquareEdge::West => 3,
        }
    }

    /// The side across.
    pub fn get_opposite(&self) -> (r: SquareEdge)
        ensures
            r == self.opposite(),
            r.opposite() == *self,
    {
        match self {
            SquareEdge::North => SquareEdge::South,
            SquareEdge::East => SquareEdge::West,
            SquareEdge::South => SquareEdge::North,
            SquareEdge::West => SquareEdge::East,
        }
    }
}

/// Taking the side across twice gives the side back.
pub proof fn lemma_opposite_involution(edge: SquareEdge)
    ensures
        edge.opposite().opposite() == edge,
        edge.opposite() != edge,
{
}

/// The sides of a square that carry a wall.
#[derive(Clone, Copy, Debug, PartialEq, Eq, Structural)]
pub struct WallSet {
    pub north: bool,
    pub east: bool,
    pub south: bool,
    pub west: bool,
}

impl WallSet {
    /// Whether the side `edge` carries a wall.
    pub open spec fn has(self, edge: SquareEdge) -> bool {
        match edge {
            SquareEdge::North => self.north,
            SquareEdge::East => self.east,
            SquareEdge::South => self.south,
            SquareEdge::West => self.west,
        }
    }

    /// The walls as a set of sides.
    pub open spec fn view(self) -> Set<SquareEdge> {
        Set::new(|e: SquareEdge| self.has(e))
    }

    /// The walls that a map digit stands for: bit 0 is the west side, bit 1
    /// the north side, bit 2 the east side, bit 3 the south side.
    pub open spec fn of_digit(v: u8) -> WallSet {
        WallSet {
            west: v & 1 != 0,
            north: v & 2 != 0,
            east: v & 4 != 0,
            south: v & 8 != 0,
        }
    }

    /// No walls.
    pub fn new() -> (r: WallSet)
        ensures
            r@ == Set::<SquareEdge>::empty(),
            forall|e: SquareEdge| !r.has(e),
    {
        let r = WallSet { north: false, east: false, south: false, west: false };
        assert(r@ =~= Set::<SquareEdge>::empty());
        r
    }

    /// The walls that a map digit stands for.
    pub fn from_digit(v: u8) -> (r: WallSet)
        ensures
            r == WallSet::of_digit(v),
    {
        let mut wall = WallSet::new();
        if v & 0b0001 != 0 {
            wall.insert(SquareEdge::West);
        }
        if v & 0b0010 != 0 {
            wall.insert(SquareEdge::North);
        }
        if v & 0b0100 != 0 {
            wall.insert(SquareEdge::East);
        }
        if v & 0b1000 != 0 {
            wall.insert(SquareEdge::South);
        }
        proof {
            let walls = WallSet::of_digit(v);
            assert(wall.has(SquareEdge::West) == walls.west);
            assert(wall.has(SquareEdge::North) == walls.north);
            assert(wall.has(SquareEdge::East) == walls.east);
            assert(wall.has(SquareEdge::South) == walls.south);
        }
        wall
    }

    /// Adds a wall on `edge`. Returns whether it was missing before.
    pub fn insert(&mut self, edge: SquareEdge) -> (added: bool)
        ensures
            final(self)@ == old(self)@.insert(edge),
            forall|e: SquareEdge| final(self).has(e) == (e == edge || old(self).has(e)),
            added == !old(self)@.contains(edge),
    {
        let had = self.contains(&edge);
        match edge {
            SquareEdge::North => {
                self.north = true;
            },
            SquareEdge::East => {
                self.east = true;
            },
            SquareEdge::South => {
                self.south = true;
            },
            SquareEdge::West => {
                self.west = true;
            },
        }
        assert(self@ =~= old(self)@.insert(edge));
        !had
    }

    /// Whether the side `edge` carries a wall.
    pub fn contains(&self, edge: &SquareEdge) -> (r: bool)
        ensures
            r == self@.contains(*edge),
            r == self.has(*edge),
    {
        match edge {
            SquareEdge::North => self.north,
            SquareEdge::East => self.east,
            SquareEdge::South => self.south,
            SquareEdge::West => self.west,
        }
    }
}

/// One square of the board.
#[derive(Clone, Copy, Debug, PartialEq, Eq, Structural)]
pub struct Square {
    pub occupant: SquareOccupant,
    pub wall: WallSet,
}

impl Square {
    /// A square with the given occupant and walls.
    pub fn new(occupant: SquareOccupant, wall: WallSet) -> (r: Square)
        ensures
            r.occupant == occupant,
            r.wall == wall,
    {
        Square { occupant, wall }
    }
}

/// The place of a square: column `0` and row `1`, counted from the top left.
#[derive(Clone, Copy, Debug, PartialEq, Eq, Hash, Structural)]
pub struct BoardSquareCoords(pub u32, pub u32);

/// A text that is not a coordinate pair.
#[derive(Debug, PartialEq, Eq)]
pub struct ParsePointError;

impl BoardSquareCoords {
    /// The written form of a coordinate pair: `(x,y)`, both numbers in
    /// decimal.
    pub open spec fn text(self) -> Seq<char> {
        seq!['('] + decimal(self.0 as nat) + seq![','] + decimal(self.1 as nat) + seq![')']
    }

    /// The coordinate pair that a text stands for, if it is exactly of the
    /// form `(x,y)` with two unsigned 32-bit numbers.
    pub open spec fn parse(s: Seq<char>) -> Option<BoardSquareCoords> {
        if s.len() >= 2 && s[0] == '(' && s.last() == ')' {
            let inner = s.subrange(1, s.len() - 1);
            let i = first_index_of(inner, ',');
            if 0 <= i < inner.len() {
                match (parse_u32_spec(inner.take(i)), parse_u32_spec(inner.skip(i + 1))) {
                    (Some(x), Some(y)) => Some(BoardSquareCoords(x, y)),
                    _ => None,
                }
            } else {
                None
            }
        } else {
            None
        }
    }

    /// Appends the written form of the pair to `out`.
    pub fn push_text(&self, out: &mut String)
        ensures
            final(out)@ == old(out)@ + self.text(),
    {
        proof {
            reveal_strlit("(");
            reveal_strlit(",");
            reveal_strlit(")");
        }
        out.append("(");
        push_decimal(out, self.0);
        out.append(",");
        push_decimal(out, self.1);
        out.append(")");
        assert(out@ =~= old(out)@ + self.text());
    }

    /// The written form of the pair, `(x,y)`.
    pub fn to_string(&self) -> (r: String)
        ensures
            r@ == self.text(),
    {
        let mut out = String::new();
        self.push_text(&mut out);
        assert(out@ =~= self.text());
        out
    }

    /// Reads a coordinate pair from text that is already cut into
    /// characters.
    pub fn from_chars(v: &Vec<char>) -> (r: Option<BoardSquareCoords>)
        ensures
            r == BoardSquareCoords::parse(v@),
    {
        let n = v.len();
        if n < 2 || v[0] != '(' || v[n - 1] != ')' {
            return None;
        }
        let ghost inner = v@.subrange(1, n - 1);
        let mut i: usize = 1;
        while i < n - 1 && v[i] != ','
            invariant
                1 <= i <= n - 1,
                n == v.len(),
                forall|j: int| 1 <= j < i ==> v@[j] != ',',
            decreases n - i,
        {
            i += 1;
        }
        proof {
            lemma_first_index_unique(inner, ',', i - 1);
        }
        if i == n - 1 {
            return None;
        }
        let x_text = sub_chars(v, 1, i);
        let y_text = sub_chars(v, i + 1, n - 1);
        proof {
            assert(x_text@ =~= inner.take(i - 1));
            assert(y_text@ =~= inner.skip(i - 1 + 1));
        }
        match (parse_u32(&x_text), parse_u32(&y_text)) {
            (Some(x), Some(y)) => Some(BoardSquareCoords(x, y)),
            _ => None,
        }
    }
}

impl std::str::FromStr for BoardSquareCoords {
    type Err = ParsePointError;

    /// Reads a coordinate pair written as `(x,y)`; any other text is an
    /// error.
    fn from_str(s: &str) -> (r: Result<Self, ParsePointError>)
        ensures
            r is Ok <==> BoardSquareCoords::parse(s@) is Some,
            r matches Ok(c) ==> BoardSquareCoords::parse(s@) == Some(c),
    {
        let v = chars_of(s);
        match BoardSquareCoords::from_chars(&v) {
            Some(c) => Ok(c),
            None => Err(ParsePointError),
        }
    }
}

/// The written form of a coordinate pair holds neither a space nor a line
/// feed.
pub proof fn lemma_coords_text_chars(c: BoardSquareCoords)
    ensures
        forall|j: int| 0 <= j < c.text().len() ==> c.text()[j] != ' ' && c.text()[j] != '\n',
{
    lemma_decimal_round_trip(c.0 as nat);
    lemma_decimal_round_trip(c.1 as nat);
    let dx = decimal(c.0 as nat);
    let dy = decimal(c.1 as nat);
    let s = c.text();
    assert forall|j: int| 0 <= j < s.len() implies s[j] != ' ' && s[j] != '\n' by {
        if j == 0 {
        } else if j < 1 + dx.len() {
            assert(s[j] == dx[j - 1]);
            assert(is_digit(dx[j - 1]));
        } else if j == 1 + dx.len() {
        } else if j < 2 + dx.len() + dy.len() {
            assert(s[j] == dy[j - 2 - dx.len()]);
            assert(is_digit(dy[j - 2 - dx.len()]));
        } else {
        }
    }
}

/// Writing a coordinate pair and reading it back gives the pair again.
pub proof fn lemma_coords_round_trip(c: BoardSquareCoords)
    ensures
        BoardSquareCoords::parse(c.text()) == Some(c),
{
    lemma_decimal_round_trip(c.0 as nat);
    lemma_decimal_round_trip(c.1 as nat);
    let dx = decimal(c.0 as nat);
    let dy = decimal(c.1 as nat);
    let s = c.text();
    let inner = s.subrange(1, s.len() - 1);
    assert(inner =~= dx + seq![','] + dy);
    assert forall|j: int| 0 <= j < dx.len() implies inner[j] != ',' by {
        assert(inner[j] == dx[j]);
        assert(is_digit(dx[j]));
    }
    lemma_first_index_unique(inner, ',', dx.len() as int);
    assert(inner.take(dx.len() as int) =~= dx);
    assert(inner.skip(dx.len() as int + 1) =~= dy);
}

/// The board as a mathematical object: which coordinates hold a square, what
/// each square holds, and the board's size in squares.
pub struct BoardView {
    pub squares: Map<BoardSquareCoords, Square>,
    pub width: u32,
    pub height: u32,
}

impl BoardView {
    /// `c` lies within the board's size.
    pub open spec fn in_range(self, c: BoardSquareCoords) -> bool {
        c.0 < self.width && c.1 < self.height
    }

    /// The board is a full grid: it holds a square at exactly the
    /// coordinates within its size.
    pub open spec fn wf(self) -> bool {
        forall|c: BoardSquareCoords| #[trigger] self.squares.contains_key(c) <==> self.in_range(c)
    }

    /// Every citizen on the board belongs to a player.
    pub open spec fn citizens_have_players(self) -> bool {
        forall|c: BoardSquareCoords| #[trigger]
            self.squares.contains_key(c) ==> self.squares[c].occupant != SquareOccupant::Citizen(
                Team::Neutral,
            )
    }

    /// The square at `c`, if the board holds one there.
    pub open spec fn cell(self, c: BoardSquareCoords) -> Option<Square> {
        if self.squares.contains_key(c) {
            Some(self.squares[c])
        } else {
            None
        }
    }

    /// The coordinates one step from `pos` across its side `edge`, if they
    /// can be written at all. North is towards row 0, west towards column 0.
    pub open spec fn step(pos: BoardSquareCoords, edge: SquareEdge) -> Option<BoardSquareCoords> {
        match edge {
            SquareEdge::North => if pos.1 > 0 {
                Some(BoardSquareCoords(pos.0, (pos.1 - 1) as u32))
            } else {
                None
            },
            SquareEdge::East => if pos.0 < u32::MAX {
                Some(BoardSquareCoords((pos.0 + 1) as u32, pos.1))
            } else {
                None
            },
            SquareEdge::South => if pos.1 < u32::MAX {
                Some(BoardSquareCoords(pos.0, (pos.1 + 1) as u32))
            } else {
                None
            },
            SquareEdge::West => if pos.0 > 0 {
                Some(BoardSquareCoords((pos.0 - 1) as u32, pos.1))
            } else {
                None
            },
        }
    }

    /// The square of the board across the side `edge` of `pos`, if there is
    /// one: nothing lies beyond the board's size, and nothing wraps around.
    pub open spec fn neighbour(self, pos: BoardSquareCoords, edge: SquareEdge) -> Option<
        BoardSquareCoords,
    > {
        match BoardView::step(pos, edge) {
            Some(n) => if self.in_range(n) && self.squares.contains_key(n) {
                Some(n)
            } else {
                None
            },
            None => None,
        }
    }

    /// The neighbour across `edge` as a list of at most one entry.
    pub open spec fn neighbour_entry(self, pos: BoardSquareCoords, edge: SquareEdge) -> Seq<
        (SquareEdge, BoardSquareCoords),
    > {
        match self.neighbour(pos, edge) {
            Some(n) => seq![(edge, n)],
            None => Seq::empty(),
        }
    }

    /// The up to four neighbours of `pos`, each with the side of `pos` that
    /// it lies across, in the order north, east, south, west.
    pub open spec fn neighbours(self, pos: BoardSquareCoords) -> Seq<
        (SquareEdge, BoardSquareCoords),
    > {
        self.neighbour_entry(pos, SquareEdge::North) + self.neighbour_entry(pos, SquareEdge::East)
            + self.neighbour_entry(pos, SquareEdge::South) + self.neighbour_entry(
            pos,
            SquareEdge::West,
        )
    }

    /// The board with the occupant of the square at `c` replaced.
    pub open spec fn with_occupant(self, c: BoardSquareCoords, occupant: SquareOccupant) -> BoardView
        recommends
            self.squares.contains_key(c),
    {
        BoardView {
            squares: self.squares.insert(c, Square { occupant, wall: self.squares[c].wall }),
            width: self.width,
            height: self.height,
        }
    }
}

/// The list of neighbours holds exactly the neighbours across the four
/// sides, each once, in the order north, east, south, west.
pub proof fn lemma_neighbours(board: BoardView, pos: BoardSquareCoords)
    ensures
        board.neighbours(pos).len() <= 4,
        forall|i: int|
            0 <= i < board.neighbours(pos).len() ==> board.neighbour(
                pos,
                (#[trigger] board.neighbours(pos)[i]).0,
            ) == Some(board.neighbours(pos)[i].1),
        forall|edge: SquareEdge|
            (#[trigger] board.neighbour(pos, edge)) is Some ==> exists|i: int|
                0 <= i < board.neighbours(pos).len() && #[trigger] board.neighbours(pos)[i] == (
                    edge,
                    board.neighbour(pos, edge)->0,
                ),
        forall|i: int, j: int|
            0 <= i < j < board.neighbours(pos).len() ==> (#[trigger] board.neighbours(
                pos,
            )[i]).0.scan_rank() < (#[trigger] board.neighbours(pos)[j]).0.scan_rank(),
{
    let n = board.neighbour_entry(pos, SquareEdge::North);
    let e = board.neighbour_entry(pos, SquareEdge::East);
    let s = board.neighbour_entry(pos, SquareEdge::South);
    let w = board.neighbour_entry(pos, SquareEdge::West);
    let all = board.neighbours(pos);
    assert(all == n + e + s + w);
    assert(n.len() <= 1 && e.len() <= 1 && s.len() <= 1 && w.len() <= 1);
    assert forall|edge: SquareEdge| (#[trigger] board.neighbour(pos, edge)) is Some implies exists|
        i: int,
    |
        0 <= i < all.len() && #[trigger] all[i] == (edge, board.neighbour(pos, edge)->0) by {
        let target = (edge, board.neighbour(pos, edge)->0);
        match edge {
            SquareEdge::North => {
                assert(all[0] == target);
            },
            SquareEdge::East => {
                assert(all[n.len() as int] == target);
            },
            SquareEdge::South => {
                assert(all[(n.len() + e.len()) as int] == target);
            },
            SquareEdge::West => {
                assert(all[(n.len() + e.len() + s.len()) as int] == target);
            },
        }
    }
}

/// Why a map text is not a board.
#[derive(Clone, Copy, Debug, PartialEq, Eq, Structural)]
pub enum BoardError {
    /// The map has more rows or columns than a coordinate can count.
    TooLarge,
    /// A character of the map is not a hexadecimal digit.
    InvalidDigit,
    /// A row is shorter than the widest row.
    ShortLine,
}

/// The piece that starts the game at `c`.
pub open spec fn initial_occupant(c: BoardSquareCoords) -> SquareOccupant {
    let x = c.0;
    let y = c.1;
    if (x == 6 && y == 0) || (x == 0 && y == 8) {
        SquareOccupant::Guard(Team::Neutral)
    } else if (2 <= x <= 4 && 2 <= y <= 3) || (x == 4 && y == 4) {
        SquareOccupant::Citizen(Team::Purple)
    } else if (x == 2 && y == 4) || (2 <= x <= 4 && 5 <= y <= 6) {
        SquareOccupant::Citizen(Team::White)
    } else if x == 3 && y == 4 {
        SquareOccupant::Magistrate(Team::Neutral)
    } else {
        SquareOccupant::Empty
    }
}

/// The piece that starts the game at `c`.
pub fn starting_occupant(c: BoardSquareCoords) -> (r: SquareOccupant)
    ensures
        r == initial_occupant(c),
{
    let x = c.0;
    let y = c.1;
    if (x == 6 && y == 0) || (x == 0 && y == 8) {
        SquareOccupant::Guard(Team::Neutral)
    } else if (2 <= x && x <= 4 && 2 <= y && y <= 3) || (x == 4 && y == 4) {
        SquareOccupant::Citizen(Team::Purple)
    } else if (x == 2 && y == 4) || (2 <= x && x <= 4 && 5 <= y && y <= 6) {
        SquareOccupant::Citizen(Team::White)
    } else if x == 3 && y == 4 {
        SquareOccupant::Magistrate(Team::Neutral)
    } else {
        SquareOccupant::Empty
    }
}

/// The length of the longest row.
pub open spec fn widest(rows: Seq<Seq<char>>) -> nat
    decreases rows.len(),
{
    if rows.len() == 0 {
        0
    } else {
        let w = widest(rows.drop_last());
        if rows.last().len() > w {
            rows.last().len()
        } else {
            w
        }
    }
}

/// No row is longer than the longest.
pub proof fn lemma_widest_bounds(rows: Seq<Seq<char>>, y: int)
    requires
        0 <= y < rows.len(),
    ensures
        rows[y].len() <= widest(rows),
    decreases rows.len(),
{
    if y < rows.len() - 1 {
        lemma_widest_bounds(rows.drop_last(), y);
    }
}

/// Every character of every row is a hexadecimal digit.
pub open spec fn all_hex(rows: Seq<Seq<char>>) -> bool {
    forall|y: int, x: int|
        0 <= y < rows.len() && 0 <= x < rows[y].len() ==> hex_value(#[trigger] rows[y][x]) is Some
}

/// Every row is as long as the longest.
pub open spec fn all_full(rows: Seq<Seq<char>>) -> bool {
    forall|y: int| 0 <= y < rows.len() ==> (#[trigger] rows[y]).len() == widest(rows)
}

/// The square that the map rows put at `c`: the walls that the digit at
/// column `c.0` of row `c.1` stands for, and the starting piece of `c`.
pub open spec fn square_of_rows(rows: Seq<Seq<char>>, c: BoardSquareCoords) -> Square {
    Square {
        occupant: initial_occupant(c),
        wall: WallSet::of_digit(hex_value(rows[c.1 as int][c.0 as int])->0),
    }
}

/// The board that map rows describe: one row of squares per row of text, one
/// square per character.
pub open spec fn board_of_rows(rows: Seq<Seq<char>>) -> BoardView {
    BoardView {
        squares: Map::new(
            |c: BoardSquareCoords| c.1 < rows.len() && c.0 < rows[c.1 as int].len(),
            |c: BoardSquareCoords| square_of_rows(rows, c),
        ),
        width: widest(rows) as u32,
        height: rows.len() as u32,
    }
}

/// What a map text describes. The text is cut into lines, one per row of the
/// board. It is refused where it is too large to address, else where any
/// character is not a hexadecimal digit, else where a row is shorter than the
/// widest.
pub open spec fn read_map(text: Seq<char>) -> Result<BoardView, BoardError> {
    let rows = lines(text);
    if rows.len() > u32::MAX || widest(rows) > u32::MAX {
        Err(BoardError::TooLarge)
    } else if !all_hex(rows) {
        Err(BoardError::InvalidDigit)
    } else if !all_full(rows) {
        Err(BoardError::ShortLine)
    } else {
        Ok(board_of_rows(rows))
    }
}

/// The board: rows of squares, top row first, and its size in squares.
pub struct Board {
    /// `squares[y][x]` is the square at column `x` of row `y`.
    pub squares: Vec<Vec<Square>>,
    /// Width in squares.
    pub width: u32,
    /// Height in squares.
    pub height: u32,
}

impl View for Board {
    type V = BoardView;

    open spec fn view(&self) -> BoardView {
        BoardView {
            squares: Map::new(
                |c: BoardSquareCoords| self.has(c),
                |c: BoardSquareCoords| self.squares[c.1 as int][c.0 as int],
            ),
            width: self.width,
            height: self.height,
        }
    }
}

impl Board {
    /// The rows hold a square at `c`.
    pub open spec fn has(&self, c: BoardSquareCoords) -> bool {
        c.1 < self.squares.len() && c.0 < self.squares[c.1 as int].len()
    }

    /// The rows agree with the board's size: there are `height` rows of
    /// `width` squares each.
    pub open spec fn wf(&self) -> bool {
        &&& self.squares.len() == self.height
        &&& forall|j: int|
            0 <= j < self.squares.len() ==> (#[trigger] self.squares[j]).len() == self.width
    }

    /// Two boards have the same size and rows of the same lengths.
    pub open spec fn same_shape(&self, other: Board) -> bool {
        &&& self.width == other.width
        &&& self.height == other.height
        &&& self.squares.len() == other.squares.len()
        &&& forall|j: int|
            0 <= j < self.squares.len() ==> (#[trigger] self.squares[j]).len()
                == other.squares[j].len()
    }

    /// A board whose rows agree with its size is a full grid.
    pub proof fn lemma_wf_view(self)
        requires
            self.wf(),
        ensures
            self@.wf(),
    {
    }

    /// Reads a board from a map text: one line per row, one hexadecimal
    /// digit per square, whose bits say which sides of the square carry a
    /// wall. The pieces are put on their starting squares.
    pub fn new(board_txt: &str) -> (r: Result<Board, BoardError>)
        ensures
            match r {
                Ok(board) => read_map(board_txt@) == Ok::<BoardView, BoardError>(board@)
                    && board.wf() && board@.citizens_have_players(),
                Err(e) => read_map(board_txt@) == Err::<BoardView, BoardError>(e),
            },
    {
        let chars = chars_of(board_txt);
        let rows = split_lines(&chars);
        let ghost text_rows = lines(board_txt@);
        assert(text_rows == views(rows@));
        let mut width: usize = 0;
        let mut y: usize = 0;
        while y < rows.len()
            invariant
                y <= rows.len(),
                text_rows == views(rows@),
                width == widest(text_rows.take(y as int)),
            decreases rows.len() - y,
        {
            assert(text_rows.take(y + 1).drop_last() =~= text_rows.take(y as int));
            if rows[y].len() > width {
                width = rows[y].len();
            }
            y += 1;
        }
        assert(text_rows.take(y as int) =~= text_rows);
        if rows.len() > u32::MAX as usize || width > u32::MAX as usize {
            return Err(BoardError::TooLarge);
        }
        let mut squares: Vec<Vec<Square>> = Vec::new();
        let mut short = false;
        let ghost mut short_row: int = 0;
        y = 0;
        while y < rows.len()
            invariant
                y <= rows.len() <= u32::MAX,
                text_rows == views(rows@),
                text_rows == lines(board_txt@),
                width == widest(text_rows),
                width <= u32::MAX,
                squares.len() == y,
                forall|j: int| 0 <= j < y ==> (#[trigger] squares@[j]).len() == text_rows[j].len(),
                forall|j: int, i: int|
                    0 <= j < y && 0 <= i < text_rows[j].len() ==> hex_value(
                        #[trigger] text_rows[j][i],
                    ) is Some,
                forall|j: int, i: int|
                    0 <= j < y && 0 <= i < text_rows[j].len() ==> (#[trigger] squares@[j]@[i])
                        == square_of_rows(text_rows, BoardSquareCoords(i as u32, j as u32)),
                short ==> 0 <= short_row < y && text_rows[short_row].len() != width,
                !short ==> forall|j: int| 0 <= j < y ==> (#[trigger] text_rows[j]).len() == width,
            decreases rows.len() - y,
        {
            let row = &rows[y];
            proof {
                lemma_widest_bounds(text_rows, y as int);
                assert(row@ == text_rows[y as int]);
            }
            let mut row_squares: Vec<Square> = Vec::new();
            let mut x: usize = 0;
            while x < row.len()
                invariant
                    x <= row.len() <= u32::MAX,
                    y < rows.len() <= u32::MAX,
                    text_rows == views(rows@),
                    text_rows == lines(board_txt@),
                    widest(text_rows) <= u32::MAX,
                    row@ == text_rows[y as int],
                    row_squares.len() == x,
                    forall|i: int| 0 <= i < x ==> hex_value(#[trigger] row@[i]) is Some,
                    forall|i: int|
                        0 <= i < x ==> (#[trigger] row_squares@[i]) == square_of_rows(
                            text_rows,
                            BoardSquareCoords(i as u32, y as u32),
                        ),
                decreases row.len() - x,
            {
                match parse_hex_digit(row[x]) {
                    None => {
                        assert(hex_value(text_rows[y as int][x as int]) is None);
                        assert(!all_hex(text_rows));
                        return Err(BoardError::InvalidDigit);
                    },
                    Some(v) => {
                        let c = BoardSquareCoords(x as u32, y as u32);
                        row_squares.push(Square::new(starting_occupant(c), WallSet::from_digit(v)));
                    },
                }
                x += 1;
            }
            if row.len() != width {
                short = true;
                proof {
                    short_row = y as int;
                }
            }
            squares.push(row_squares);
            y += 1;
        }
        if short {
            assert(!all_full(text_rows));
            return Err(BoardError::ShortLine);
        }
        let board = Board { squares, width: width as u32, height: rows.len() as u32 };
        proof {
            assert(all_hex(text_rows));
            assert(all_full(text_rows));
            assert(board@.squares =~= board_of_rows(text_rows).squares);
            assert(board@ == board_of_rows(text_rows));
        }
        Ok(board)
    }

    /// The rows of squares, top row first.
    pub fn get_squares(&self) -> (r: &Vec<Vec<Square>>)
        ensures
            *r == self.squares,
    {
        &self.squares
    }

    /// The square at `c`; `None` where the board has none.
    pub fn get(&self, c: BoardSquareCoords) -> (r: Option<&Square>)
        ensures
            r is Some <==> self@.squares.contains_key(c),
            r matches Some(s) ==> self@.cell(c) == Some(*s),
    {
        if (c.1 as usize) < self.squares.len() {
            let row = &self.squares[c.1 as usize];
            if (c.0 as usize) < row.len() {
                return Some(&row[c.0 as usize]);
            }
        }
        None
    }

    /// The coordinates one step from `pos` across its side `edge`; `None`
    /// where the step would leave the range of coordinates.
    pub fn step(pos: BoardSquareCoords, edge: SquareEdge) -> (r: Option<BoardSquareCoords>)
        ensures
            r == BoardView::step(pos, edge),
    {
        match edge {
            SquareEdge::North => if pos.1 > 0 {
                Some(BoardSquareCoords(pos.0, pos.1 - 1))
            } else {
                None
            },
            SquareEdge::East => if pos.0 < u32::MAX {
                Some(BoardSquareCoords(pos.0 + 1, pos.1))
            } else {
                None
            },
            SquareEdge::South => if pos.1 < u32::MAX {
                Some(BoardSquareCoords(pos.0, pos.1 + 1))
            } else {
                None
            },
            SquareEdge::West => if pos.0 > 0 {
                Some(BoardSquareCoords(pos.0 - 1, pos.1))
            } else {
                None
            },
        }
    }

    /// The square of the board across the side `edge` of `pos`, if there is
    /// one.
    pub fn neighbour(&self, pos: BoardSquareCoords, edge: SquareEdge) -> (r: Option<
        BoardSquareCoords,
    >)
        ensures
            r == self@.neighbour(pos, edge),
    {
        match Board::step(pos, edge) {
            Some(n) => if n.0 < self.width && n.1 < self.height && self.get(n).is_some() {
                Some(n)
            } else {
                None
            },
            None => None,
        }
    }

    /// The up to four neighbours of `pos` on the board, each with the side
    /// of `pos` that it lies across, in the order north, east, south, west.
    /// A direction that leaves the board is left out.
    pub fn neighbours(&self, pos: BoardSquareCoords) -> (r: Vec<(SquareEdge, BoardSquareCoords)>)
        ensures
            r@ == self@.neighbours(pos),
    {
        let mut out: Vec<(SquareEdge, BoardSquareCoords)> = Vec::new();
        if let Some(n) = self.neighbour(pos, SquareEdge::North) {
            out.push((SquareEdge::North, n));
        }
        assert(out@ =~= self@.neighbour_entry(pos, SquareEdge::North));
        if let Some(n) = self.neighbour(pos, SquareEdge::East) {
            out.push((SquareEdge::East, n));
        }
        assert(out@ =~= self@.neighbour_entry(pos, SquareEdge::North) + self@.neighbour_entry(
            pos,
            SquareEdge::East,
        ));
        if let Some(n) = self.neighbour(pos, SquareEdge::South) {
            out.push((SquareEdge::South, n));
        }
        assert(out@ =~= self@.neighbour_entry(pos, SquareEdge::North) + self@.neighbour_entry(
            pos,
            SquareEdge::East,
        ) + self@.neighbour_entry(pos, SquareEdge::South));
        if let Some(n) = self.neighbour(pos, SquareEdge::West) {
            out.push((SquareEdge::West, n));
        }
        assert(out@ =~= self@.neighbours(pos));
        out
    }

    /// Replaces the occupant of the square at `c`. Returns whether the board
    /// has a square there; where it has none, nothing changes.
    pub fn set_occupant(&mut self, c: BoardSquareCoords, occupant: SquareOccupant) -> (found: bool)
        ensures
            found == old(self)@.squares.contains_key(c),
            found ==> final(self)@ == old(self)@.with_occupant(c, occupant),
            !found ==> final(self)@ == old(self)@,
            final(self).same_shape(*old(self)),
    {
        if (c.1 as usize) < self.squares.len() && (c.0 as usize) < self.squares[c.1 as usize].len() {
            self.squares[c.1 as usize][c.0 as usize].occupant = occupant;
            proof {
                assert(forall|d: BoardSquareCoords| self.has(d) == old(self).has(d));
                assert(self@.squares =~= old(self)@.with_occupant(c, occupant).squares);
            }
            true
        } else {
            false
        }
    }
}

} // verus!
