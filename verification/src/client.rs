//! The client's state between frames: the scene shown, the square that the
//! player has picked up, the team picker, and the address being typed. What
//! draws and what polls the keyboard lives outside this crate and hands in
//! plain events.
use crate::board::BoardSquareCoords;
use crate::game::{GameState, Team};
use crate::menu::{move_down, move_up, step_down, step_up, MenuOption};
use crate::net::{decoded, MessageView, ProtocolMessage};
use crate::text::{decimal, push_decimal};
use vstd::prelude::*;

verus! {

/// What the client shows.
#[derive(Clone, Copy, Debug, PartialEq, Eq, Structural)]
pub enum Scene {
    InGame,
    MainMenu,
    TeamPicker,
    EnterIp,
}

/// What can take the client from one scene to another.
#[derive(Clone, Copy, Debug, PartialEq, Eq, Structural)]
pub enum SceneEvent {
    /// The player chose an entry of the main menu.
    MenuChosen(MenuOption),
    /// The player confirmed the address, and the connection stands.
    Connected,
    /// The player picked a team.
    TeamPicked,
    /// A game over the network is shown, and the player has no team yet.
    TeamMissing,
    /// The connection to the server is lost.
    Disconnected,
    /// The player asked to leave the game.
    Leave,
}

impl Scene {
    /// The scene after `event`; `None` where the client quits.
    ///
    /// - From the main menu a local or hosted game leads into the game, a
    ///   game to join leads to the address entry, and quitting ends the
    ///   client.
    /// - A standing connection leads from the address entry to the team
    ///   picker, and a picked team from there into the game.
    /// - In the game a missing team leads to the team picker.
    /// - A lost connection and a request to leave lead to the main menu
    ///   from anywhere.
    /// - Nothing else changes the scene.
    pub open spec fn after(self, event: SceneEvent) -> Option<Scene> {
        match (self, event) {
            (_, SceneEvent::Leave) => Some(Scene::MainMenu),
            (_, SceneEvent::Disconnected) => Some(Scene::MainMenu),
            (Scene::MainMenu, SceneEvent::MenuChosen(MenuOption::Quit)) => None,
            (Scene::MainMenu, SceneEvent::MenuChosen(MenuOption::LocalGame)) => Some(Scene::InGame),
            (Scene::MainMenu, SceneEvent::MenuChosen(MenuOption::HostMultiplayer)) => Some(
                Scene::InGame,
            ),
            (Scene::MainMenu, SceneEvent::MenuChosen(MenuOption::JoinMultiplayer)) => Some(
                Scene::EnterIp,
            ),
            (Scene::EnterIp, SceneEvent::Connected) => Some(Scene::TeamPicker),
            (Scene::TeamPicker, SceneEvent::TeamPicked) => Some(Scene::InGame),
            (Scene::InGame, SceneEvent::TeamMissing) => Some(Scene::TeamPicker),
            (scene, _) => Some(scene),
        }
    }

    /// The scene after `event`; `None` where the client quits.
    pub fn next(self, event: SceneEvent) -> (r: Option<Scene>)
        ensures
            r == self.after(event),
    {
        match event {
            SceneEvent::Leave => Some(Scene::MainMenu),
            SceneEvent::Disconnected => Some(Scene::MainMenu),
            SceneEvent::MenuChosen(option) => match self {
                Scene::MainMenu => match option {
                    MenuOption::Quit => None,
                    MenuOption::LocalGame => Some(Scene::InGame),
                    MenuOption::HostMultiplayer => Some(Scene::InGame),
                    MenuOption::JoinMultiplayer => Some(Scene::EnterIp),
                },
                scene => Some(scene),
            },
            SceneEvent::Connected => match self {
                Scene::EnterIp => Some(Scene::TeamPicker),
                scene => Some(scene),
            },
            SceneEvent::TeamPicked => match self {
                Scene::TeamPicker => Some(Scene::InGame),
                scene => Some(scene),
            },
            SceneEvent::TeamMissing => match self {
                Scene::InGame => Some(Scene::TeamPicker),
                scene => Some(scene),
            },
        }
    }
}

/// What the player holds: the square picked up, and the team played in a
/// game over the network.
pub struct PlayerState {
    pub selected_square: Option<BoardSquareCoords>,
    pub playing_as: Option<Team>,
}

impl PlayerState {
    /// Nothing picked up, no team.
    pub fn new() -> (r: PlayerState)
        ensures
            r.selected_square is None,
            r.playing_as is None,
    {
        PlayerState { selected_square: None, playing_as: None }
    }

    /// A click on the square at `coord`. With nothing picked up the square
    /// is picked up. With a square picked up it is put down, and if the move
    /// from it to `coord` is legal, that move is returned.
    pub fn click_square(&mut self, game: &GameState, coord: BoardSquareCoords) -> (player_move:
        Option<(BoardSquareCoords, BoardSquareCoords)>)
        ensures
            final(self).playing_as == old(self).playing_as,
            match old(self).selected_square {
                Some(from) => final(self).selected_square is None && player_move == (if game@.is_legal(
                    from,
                    coord,
                ) {
                    Some((from, coord))
                } else {
                    None
                }),
                None => final(self).selected_square == Some(coord) && player_move is None,
            },
    {
        match self.selected_square {
            Some(player_sq) => {
                self.selected_square = None;
                if game.valid_move(player_sq, coord) {
                    Some((player_sq, coord))
                } else {
                    None
                }
            },
            None => {
                self.selected_square = Some(coord);
                None
            },
        }
    }

    /// Puts down what is picked up.
    pub fn clear_selection(&mut self)
        ensures
            final(self).selected_square is None,
            final(self).playing_as == old(self).playing_as,
    {
        self.selected_square = None;
    }
}

/// The number of teams that a player can pick.
pub const TEAM_ITEMS: u32 = 2;

/// Which team is selected in the team picker.
pub struct TeamPickerMenuState {
    pub selected_team_index: u32,
}

impl TeamPickerMenuState {
    /// The team at place `index` of the picker: Purple, then White.
    pub open spec fn team_at(index: u32) -> Option<Team> {
        if index == 0 {
            Some(Team::Purple)
        } else if index == 1 {
            Some(Team::White)
        } else {
            None
        }
    }

    /// The selected entry is one of the picker.
    pub open spec fn wf(&self) -> bool {
        self.selected_team_index < TEAM_ITEMS
    }

    /// The picker with its first team selected.
    pub fn new() -> (r: TeamPickerMenuState)
        ensures
            r.selected_team_index == 0,
            r.wf(),
    {
        Self { selected_team_index: 0 }
    }

    /// The team at place `index` of the picker; `None` past the last.
    pub fn team_from_index(index: u32) -> (r: Option<Team>)
        ensures
            r == TeamPickerMenuState::team_at(index),
            r is Some <==> index < TEAM_ITEMS,
    {
        match index {
            0 => Some(Team::Purple),
            1 => Some(Team::White),
            _ => None,
        }
    }

    /// The down key: selects the next team, if there is one.
    pub fn key_down(&mut self)
        ensures
            final(self).selected_team_index == step_down(old(self).selected_team_index, TEAM_ITEMS),
            final(self).wf(),
    {
        self.selected_team_index = move_down(self.selected_team_index, TEAM_ITEMS);
    }

    /// The up key: selects the team before, if there is one.
    pub fn key_up(&mut self)
        ensures
            final(self).selected_team_index == step_up(old(self).selected_team_index, TEAM_ITEMS),
            final(self).wf(),
    {
        self.selected_team_index = move_up(self.selected_team_index, TEAM_ITEMS);
    }

    /// The pointer is over the team at place `index`: that team is selected.
    /// Returns the team; past the last team nothing changes.
    pub fn hover(&mut self, index: u32) -> (r: Option<Team>)
        ensures
            r == TeamPickerMenuState::team_at(index),
            final(self).selected_team_index == (if index < TEAM_ITEMS {
                index
            } else {
                old(self).selected_team_index
            }),
    {
        let r = TeamPickerMenuState::team_from_index(index);
        if r.is_some() {
            self.selected_team_index = index;
        }
        r
    }

    /// The enter key: the selected team.
    pub fn selected_team(&self) -> (r: Team)
        requires
            self.wf(),
        ensures
            TeamPickerMenuState::team_at(self.selected_team_index) == Some(r),
            r != Team::Neutral,
    {
        match TeamPickerMenuState::team_from_index(self.selected_team_index) {
            Some(team) => team,
            None => Team::Purple,
        }
    }
}

/// A key that means something while an address is typed.
#[derive(Clone, Copy, Debug, PartialEq, Eq, Structural)]
pub enum IpKey {
    /// Takes the last character away.
    Backspace,
    /// Types a colon.
    Colon,
    /// Types a full stop.
    Period,
    /// Types a number.
    Digit(u32),
}

/// The address that the player is typing.
pub struct EnterIpState {
    pub ip_input: String,
}

impl EnterIpState {
    /// The text after a key: backspace takes the last character away, if
    /// there is one, and every other key adds what it types.
    pub open spec fn after_key(text: Seq<char>, key: IpKey) -> Seq<char> {
        match key {
            IpKey::Backspace => if text.len() > 0 {
                text.drop_last()
            } else {
                text
            },
            IpKey::Colon => text.push(':'),
            IpKey::Period => text.push('.'),
            IpKey::Digit(n) => text + decimal(n as nat),
        }
    }

    /// An empty address.
    pub fn new() -> (r: EnterIpState)
        ensures
            r.ip_input@ == Seq::<char>::empty(),
    {
        Self { ip_input: String::new() }
    }

    /// Takes a key.
    pub fn key_pressed(&mut self, key: IpKey)
        ensures
            final(self).ip_input@ == EnterIpState::after_key(old(self).ip_input@, key),
    {
        match key {
            IpKey::Backspace => {
                let n = self.ip_input.as_str().unicode_len();
                if n > 0 {
                    let shorter = String::from_str(self.ip_input.as_str().substring_char(0, n - 1));
                    self.ip_input = shorter;
                }
            },
            IpKey::Colon => {
                proof {
                    reveal_strlit(":");
                }
                self.ip_input.append(":");
                assert(self.ip_input@ =~= old(self).ip_input@.push(':'));
            },
            IpKey::Period => {
                proof {
                    reveal_strlit(".");
                }
                self.ip_input.append(".");
                assert(self.ip_input@ =~= old(self).ip_input@.push('.'));
            },
            IpKey::Digit(n) => {
                push_decimal(&mut self.ip_input, n);
            },
        }
    }
}

/// Takes a line from the server. A move is carried out on the local game,
/// under the rules; any other line changes nothing. Returns whether a move
/// was carried out.
pub fn receive_line(game: &mut GameState, line: &str) -> (ok: bool)
    requires
        old(game).wf(),
    ensures
        final(game).wf(),
        match decoded(line@) {
            Ok(MessageView::Move(team, from, to)) => {
                &&& ok == old(game)@.accepts(team, from, to)
                &&& ok ==> final(game)@ == old(game)@.after_move(from, to)
                &&& !ok ==> final(game)@ == old(game)@
            },
            _ => !ok && final(game)@ == old(game)@,
        },
{
    match ProtocolMessage::decode(line) {
        Ok(ProtocolMessage::Move(team, from, to)) => game.make_move(team, from, to),
        _ => false,
    }
}

} // verus!
