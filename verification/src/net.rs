//! The wire protocol: one message per line of text, and the mapping between
//! messages and lines in both directions.
use crate::board::{lemma_coords_round_trip, lemma_coords_text_chars, BoardSquareCoords};
use crate::game::{lemma_network_name_reads_back, Team};
use crate::text::{
    lemma_split_cons, lemma_split_first, lemma_split_single, split, split_str, str_eq,
};
use vstd::prelude::*;

verus! {

/// The port on which the server listens unless told otherwise.
pub const PORT: u16 = 34865;

/// Why a command was refused.
#[derive(Clone, Copy, Debug, PartialEq, Eq, Structural)]
pub enum ProtocolError {
    UnknownCommand,
    MissingArg,
    InvalidTeam,
    InvalidMove,
}

impl ProtocolError {
    /// The code of the error on the wire.
    pub open spec fn code(self) -> Seq<char> {
        match self {
            ProtocolError::UnknownCommand => "UNKNOWN"@,
            ProtocolError::MissingArg => "MISSINGARG"@,
            ProtocolError::InvalidTeam => "INVALIDTEAM"@,
            ProtocolError::InvalidMove => "INVALIDMOVE"@,
        }
    }

    /// The error that a code names. Codes are in upper case.
    pub open spec fn from_code(s: Seq<char>) -> Option<ProtocolError> {
        if s == "UNKNOWN"@ {
            Some(ProtocolError::UnknownCommand)
        } else if s == "MISSINGARG"@ {
            Some(ProtocolError::MissingArg)
        } else if s == "INVALIDTEAM"@ {
            Some(ProtocolError::InvalidTeam)
        } else if s == "INVALIDMOVE"@ {
            Some(ProtocolError::InvalidMove)
        } else {
            None
        }
    }

    /// The code of the error on the wire.
    pub fn as_str(&self) -> (r: &'static str)
        ensures
            r@ == self.code(),
    {
        match self {
            ProtocolError::UnknownCommand => "UNKNOWN",
            ProtocolError::MissingArg => "MISSINGARG",
            ProtocolError::InvalidTeam => "INVALIDTEAM",
            ProtocolError::InvalidMove => "INVALIDMOVE",
        }
    }

    /// The code of the error on the wire.
    pub fn to_string(&self) -> (r: String)
        ensures
            r@ == self.code(),
    {
        String::from_str(self.as_str())
    }

    /// Reads an error code.
    pub fn parse(token: &str) -> (r: Option<ProtocolError>)
        ensures
            r == ProtocolError::from_code(token@),
    {
        if str_eq(token, "UNKNOWN") {
            Some(ProtocolError::UnknownCommand)
        } else if str_eq(token, "MISSINGARG") {
            Some(ProtocolError::MissingArg)
        } else if str_eq(token, "INVALIDTEAM") {
            Some(ProtocolError::InvalidTeam)
        } else if str_eq(token, "INVALIDMOVE") {
            Some(ProtocolError::InvalidMove)
        } else {
            None
        }
    }
}

/// A message of the protocol.
#[derive(Debug)]
pub enum ProtocolMessage {
    /// The server refuses a command: the reason, and a text for the player.
    Error(ProtocolError, String),
    /// A client asks to play as a team, or the server announces that one
    /// does.
    TeamJoin(Team),
    /// A team moves a piece from the first square to the second.
    Move(Team, BoardSquareCoords, BoardSquareCoords),
}

/// A message as a mathematical object: the text of an error is a sequence of
/// characters.
pub enum MessageView {
    Error(ProtocolError, Seq<char>),
    TeamJoin(Team),
    Move(Team, BoardSquareCoords, BoardSquareCoords),
}

impl View for ProtocolMessage {
    type V = MessageView;

    open spec fn view(&self) -> MessageView {
        match self {
            ProtocolMessage::Error(e, text) => MessageView::Error(*e, text@),
            ProtocolMessage::TeamJoin(team) => MessageView::TeamJoin(*team),
            ProtocolMessage::Move(team, from, to) => MessageView::Move(*team, *from, *to),
        }
    }
}

impl Clone for ProtocolMessage {
    fn clone(&self) -> (r: ProtocolMessage)
        ensures
            r@ == self@,
    {
        match self {
            ProtocolMessage::Error(e, text) => ProtocolMessage::Error(*e, text.clone()),
            ProtocolMessage::TeamJoin(team) => ProtocolMessage::TeamJoin(*team),
            ProtocolMessage::Move(team, from, to) => ProtocolMessage::Move(*team, *from, *to),
        }
    }
}

impl MessageView {
    /// The line that carries the message, without the line feed that ends
    /// it: `join <team>`, `move <team> <from> <to>` or
    /// `error <code> <text>`, the parts one space apart.
    pub open spec fn line(self) -> Seq<char> {
        match self {
            MessageView::Error(e, text) => "error"@ + seq![' '] + e.code() + seq![' '] + text,
            MessageView::TeamJoin(team) => "join"@ + seq![' '] + team.network_name(),
            MessageView::Move(team, from, to) => "move"@ + seq![' '] + team.network_name() + seq![
                ' ',
            ] + from.text() + seq![' '] + to.text(),
        }
    }

    /// The message on the wire: its line and a line feed.
    pub open spec fn encoded(self) -> Seq<char> {
        self.line() + seq!['\n']
    }

    /// The message names only players: a join or a move of `Neutral` cannot
    /// be read back from the wire.
    pub open spec fn names_players(self) -> bool {
        match self {
            MessageView::Error(_, _) => true,
            MessageView::TeamJoin(team) => team != Team::Neutral,
            MessageView::Move(team, _, _) => team != Team::Neutral,
        }
    }

    /// The message as shown in a log: the kind in upper case, the team
    /// capitalised.
    pub open spec fn display(self) -> Seq<char> {
        match self {
            MessageView::Error(e, text) => "ERROR"@ + seq![' '] + e.code() + seq![' '] + text,
            MessageView::TeamJoin(team) => "TEAMJOIN"@ + seq![' '] + team.display_name(),
            MessageView::Move(team, from, to) => "MOVE"@ + seq![' '] + team.display_name() + seq![
                ' ',
            ] + from.text() + seq![' '] + to.text(),
        }
    }
}

/// `s` without a line feed at its end, if it has one.
pub open spec fn chomp(s: Seq<char>) -> Seq<char> {
    if s.len() > 0 && s.last() == '\n' {
        s.drop_last()
    } else {
        s
    }
}

/// What a line without its line feed means. The line is cut at every space;
/// the first piece is the command.
///
/// - `join` takes a team. Without one the error is `MissingArg`; a piece that
///   names no player gives `InvalidTeam`.
/// - `move` takes a team and two coordinate pairs. With fewer than three
///   pieces after the command the error is `MissingArg`; a piece that cannot
///   be read gives `InvalidMove`.
/// - `error` takes a code and a text, which is all that follows the space
///   after the code. Without both the error is `MissingArg`; an unknown code
///   gives `UnknownCommand`.
/// - Any other command gives `UnknownCommand`.
///
/// Pieces beyond those that a command takes are ignored.
pub open spec fn decode_line(line: Seq<char>) -> Result<MessageView, ProtocolError> {
    let tokens = split(line, ' ');
    let command = tokens[0];
    if command == "join"@ {
        if tokens.len() < 2 {
            Err(ProtocolError::MissingArg)
        } else {
            match Team::from_text(tokens[1]) {
                Some(team) => Ok(MessageView::TeamJoin(team)),
                None => Err(ProtocolError::InvalidTeam),
            }
        }
    } else if command == "move"@ {
        if tokens.len() < 4 {
            Err(ProtocolError::MissingArg)
        } else {
            match (
                Team::from_text(tokens[1]),
                BoardSquareCoords::parse(tokens[2]),
                BoardSquareCoords::parse(tokens[3]),
            ) {
                (Some(team), Some(from), Some(to)) => Ok(MessageView::Move(team, from, to)),
                _ => Err(ProtocolError::InvalidMove),
            }
        }
    } else if command == "error"@ {
        if tokens.len() < 3 {
            Err(ProtocolError::MissingArg)
        } else {
            match ProtocolError::from_code(tokens[1]) {
                Some(e) => Ok(
                    MessageView::Error(e, line.skip((tokens[0].len() + tokens[1].len() + 2) as int)),
                ),
                None => Err(ProtocolError::UnknownCommand),
            }
        }
    } else {
        Err(ProtocolError::UnknownCommand)
    }
}

/// What a received text means: the meaning of its line, with or without the
/// line feed that ends it.
pub open spec fn decoded(text: Seq<char>) -> Result<MessageView, ProtocolError> {
    decode_line(chomp(text))
}

/// `text` without a line feed at its end, if it has one.
pub fn strip_line_feed(text: &str) -> (line: &str)
    ensures
        line@ == chomp(text@),
{
    let n = text.unicode_len();
    if n > 0 && text.get_char(n - 1) == '\n' {
        text.substring_char(0, n - 1)
    } else {
        text
    }
}

impl ProtocolMessage {
    /// The message on the wire: one line, ended by a line feed.
    pub fn encode(&self) -> (r: String)
        ensures
            r@ == self@.encoded(),
    {
        proof {
            reveal_strlit(" ");
            reveal_strlit("\n");
        }
        let mut out = String::new();
        match self {
            ProtocolMessage::Error(e, text) => {
                out.append("error");
                out.append(" ");
                out.append(e.as_str());
                out.append(" ");
                out.append(text.as_str());
            },
            ProtocolMessage::TeamJoin(team) => {
                out.append("join");
                out.append(" ");
                out.append(team.as_network_string().as_str());
            },
            ProtocolMessage::Move(team, from, to) => {
                out.append("move");
                out.append(" ");
                out.append(team.as_network_string().as_str());
                out.append(" ");
                from.push_text(&mut out);
                out.append(" ");
                to.push_text(&mut out);
            },
        }
        out.append("\n");
        assert(out@ =~= self@.encoded());
        out
    }

    /// The message as shown in a log.
    pub fn to_string(&self) -> (r: String)
        ensures
            r@ == self@.display(),
    {
        proof {
            reveal_strlit(" ");
        }
        let mut out = String::new();
        match self {
            ProtocolMessage::Error(e, text) => {
                out.append("ERROR");
                out.append(" ");
                out.append(e.as_str());
                out.append(" ");
                out.append(text.as_str());
            },
            ProtocolMessage::TeamJoin(team) => {
                out.append("TEAMJOIN");
                out.append(" ");
                out.append(team.to_string().as_str());
            },
            ProtocolMessage::Move(team, from, to) => {
                out.append("MOVE");
                out.append(" ");
                out.append(team.to_string().as_str());
                out.append(" ");
                from.push_text(&mut out);
                out.append(" ");
                to.push_text(&mut out);
            },
        }
        assert(out@ =~= self@.display());
        out
    }

    /// Reads a message from a received line, with or without the line feed
    /// that ends it.
    pub fn decode(text: &str) -> (r: Result<ProtocolMessage, ProtocolError>)
        ensures
            match r {
                Ok(message) => decoded(text@) == Ok::<MessageView, ProtocolError>(message@),
                Err(e) => decoded(text@) == Err::<MessageView, ProtocolError>(e),
            },
    {
        let line = strip_line_feed(text);
        let tokens = split_str(line, ' ');
        let ghost pieces = split(line@, ' ');
        assert(forall|i: int| 0 <= i < tokens.len() ==> (#[trigger] tokens[i])@ == pieces[i]);
        let command = tokens[0].as_str();
        if str_eq(command, "join") {
            if tokens.len() < 2 {
                return Err(ProtocolError::MissingArg);
            }
            match Team::from_string(tokens[1].as_str()) {
                Some(team) => Ok(ProtocolMessage::TeamJoin(team)),
                None => Err(ProtocolError::InvalidTeam),
            }
        } else if str_eq(command, "move") {
            if tokens.len() < 4 {
                return Err(ProtocolError::MissingArg);
            }
            let team = Team::from_string(tokens[1].as_str());
            let from = BoardSquareCoords::from_chars(&crate::text::chars_of(tokens[2].as_str()));
            let to = BoardSquareCoords::from_chars(&crate::text::chars_of(tokens[3].as_str()));
            match (team, from, to) {
                (Some(team), Some(from), Some(to)) => Ok(ProtocolMessage::Move(team, from, to)),
                _ => Err(ProtocolError::InvalidMove),
            }
        } else if str_eq(command, "error") {
            if tokens.len() < 3 {
                return Err(ProtocolError::MissingArg);
            }
            match ProtocolError::parse(tokens[1].as_str()) {
                Some(e) => {
                    proof {
                        lemma_split_first(line@, ' ');
                        let rest = line@.skip(pieces[0].len() as int + 1);
                        lemma_split_first(rest, ' ');
                        assert(split(rest, ' ')[0] == pieces.skip(1)[0]);
                    }
                    let command_len = tokens[0].as_str().unicode_len();
                    let code_len = tokens[1].as_str().unicode_len();
                    let n = line.unicode_len();
                    let text = String::from_str(line.substring_char(command_len + code_len + 2, n));
                    assert(text@ =~= line@.skip((pieces[0].len() + pieces[1].len() + 2) as int));
                    Ok(ProtocolMessage::Error(e, text))
                },
                None => Err(ProtocolError::UnknownCommand),
            }
        } else {
            Err(ProtocolError::UnknownCommand)
        }
    }
}

/// The wire name of a team holds no space.
proof fn lemma_network_name_chars(team: Team)
    ensures
        forall|j: int| 0 <= j < team.network_name().len() ==> team.network_name()[j] != ' ',
{
    reveal_strlit("purple");
    reveal_strlit("white");
    reveal_strlit("neutral");
}

/// The code of an error holds no space and reads back as that error.
proof fn lemma_code_reads_back(e: ProtocolError)
    ensures
        forall|j: int| 0 <= j < e.code().len() ==> e.code()[j] != ' ',
        ProtocolError::from_code(e.code()) == Some(e),
{
    reveal_strlit("UNKNOWN");
    reveal_strlit("MISSINGARG");
    reveal_strlit("INVALIDTEAM");
    reveal_strlit("INVALIDMOVE");
    assert("UNKNOWN"@.len() == 7);
    assert("MISSINGARG"@.len() == 10);
    assert("INVALIDTEAM"@.len() == 11);
    assert("INVALIDTEAM"@[7] != "INVALIDMOVE"@[7]);
}

/// The command words hold no space and differ from one another.
proof fn lemma_command_words()
    ensures
        forall|j: int| 0 <= j < "join"@.len() ==> "join"@[j] != ' ',
        forall|j: int| 0 <= j < "move"@.len() ==> "move"@[j] != ' ',
        forall|j: int| 0 <= j < "error"@.len() ==> "error"@[j] != ' ',
        "join"@ != "move"@,
        "join"@ != "error"@,
        "move"@ != "error"@,
        "error"@.len() == 5,
{
    reveal_strlit("join");
    reveal_strlit("move");
    reveal_strlit("error");
    assert("join"@[0] != "move"@[0]);
    assert("join"@.len() == 4);
    assert("move"@.len() == 4);
}

/// The pieces of the line of a join.
proof fn lemma_join_pieces(team: Team)
    ensures
        split(MessageView::TeamJoin(team).line(), ' ') == seq!["join"@, team.network_name()],
{
    let name = team.network_name();
    lemma_command_words();
    lemma_network_name_chars(team);
    lemma_split_single(name, ' ');
    lemma_split_cons("join"@, ' ', name);
    assert(seq!["join"@] + seq![name] =~= seq!["join"@, name]);
}

/// The pieces of the line of a move.
proof fn lemma_move_pieces(team: Team, from: BoardSquareCoords, to: BoardSquareCoords)
    ensures
        split(MessageView::Move(team, from, to).line(), ' ') == seq![
            "move"@,
            team.network_name(),
            from.text(),
            to.text(),
        ],
{
    let sp = seq![' '];
    let name = team.network_name();
    lemma_command_words();
    lemma_network_name_chars(team);
    lemma_coords_text_chars(from);
    lemma_coords_text_chars(to);
    lemma_split_single(to.text(), ' ');
    lemma_split_cons(from.text(), ' ', to.text());
    let r2 = from.text() + sp + to.text();
    assert(split(r2, ' ') =~= seq![from.text(), to.text()]);
    lemma_split_cons(name, ' ', r2);
    let r1 = name + sp + r2;
    assert(split(r1, ' ') =~= seq![name, from.text(), to.text()]);
    lemma_split_cons("move"@, ' ', r1);
    assert(MessageView::Move(team, from, to).line() =~= "move"@ + sp + r1);
    assert(seq!["move"@] + seq![name, from.text(), to.text()] =~= seq![
        "move"@,
        name,
        from.text(),
        to.text(),
    ]);
}

/// The pieces of the line of an error: the command, the code, and the
/// pieces of the text.
proof fn lemma_error_pieces(e: ProtocolError, text: Seq<char>)
    ensures
        ({
            let tokens = split(MessageView::Error(e, text).line(), ' ');
            &&& tokens.len() >= 3
            &&& tokens[0] == "error"@
            &&& tokens[1] == e.code()
            &&& MessageView::Error(e, text).line().skip((tokens[0].len() + tokens[1].len() + 2) as int)
                == text
        }),
{
    let sp = seq![' '];
    let code = e.code();
    lemma_command_words();
    lemma_code_reads_back(e);
    lemma_split_first(text, ' ');
    lemma_split_cons(code, ' ', text);
    let r1 = code + sp + text;
    lemma_split_cons("error"@, ' ', r1);
    let line = MessageView::Error(e, text).line();
    assert(line =~= "error"@ + sp + r1);
    let tokens = split(line, ' ');
    assert(tokens == seq!["error"@] + (seq![code] + split(text, ' ')));
    assert(tokens[0] == "error"@);
    assert(tokens[1] == (seq![code] + split(text, ' '))[0]);
    assert(line.skip((tokens[0].len() + tokens[1].len() + 2) as int) =~= text);
}

/// Reading the line of a message gives the message back, provided that a
/// join or move names a player.
pub proof fn lemma_line_round_trip(message: MessageView)
    requires
        message.names_players(),
    ensures
        decode_line(message.line()) == Ok::<MessageView, ProtocolError>(message),
{
    lemma_command_words();
    match message {
        MessageView::TeamJoin(team) => {
            lemma_join_pieces(team);
            lemma_network_name_reads_back(team);
        },
        MessageView::Move(team, from, to) => {
            lemma_move_pieces(team, from, to);
            lemma_network_name_reads_back(team);
            lemma_coords_round_trip(from);
            lemma_coords_round_trip(to);
        },
        MessageView::Error(e, text) => {
            lemma_error_pieces(e, text);
            lemma_code_reads_back(e);
        },
    }
}

/// Encoding a message and decoding the result gives the message back: the
/// same kind, team, squares, code and text. This holds of every message in
/// which a join or move names a player.
pub proof fn lemma_round_trip(message: MessageView)
    requires
        message.names_players(),
    ensures
        decoded(message.encoded()) == Ok::<MessageView, ProtocolError>(message),
{
    lemma_line_round_trip(message);
    assert(chomp(message.encoded()) =~= message.line());
}

/// A join or move of `Neutral` does not read back: no team token names
/// `Neutral`.
pub proof fn lemma_neutral_does_not_read_back(from: BoardSquareCoords, to: BoardSquareCoords)
    ensures
        decoded(MessageView::TeamJoin(Team::Neutral).encoded()) == Err::<
            MessageView,
            ProtocolError,
        >(ProtocolError::InvalidTeam),
        decoded(MessageView::Move(Team::Neutral, from, to).encoded()) == Err::<
            MessageView,
            ProtocolError,
        >(ProtocolError::InvalidMove),
{
    lemma_command_words();
    let name = Team::Neutral.network_name();
    assert(Team::from_text(name) is None) by {
        reveal_strlit("purple");
        reveal_strlit("white");
        reveal_strlit("neutral");
        assert(crate::text::lower(name).len() != crate::text::lower("purple"@).len());
        assert(crate::text::lower(name).len() != crate::text::lower("white"@).len());
    }
    let join = MessageView::TeamJoin(Team::Neutral);
    lemma_join_pieces(Team::Neutral);
    assert(chomp(join.encoded()) =~= join.line());
    let mv = MessageView::Move(Team::Neutral, from, to);
    lemma_move_pieces(Team::Neutral, from, to);
    assert(chomp(mv.encoded()) =~= mv.line());
}

} // verus!
