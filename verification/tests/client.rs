use guards::board::{Board, BoardSquareCoords, SquareOccupant};
use guards::client::{
    receive_line, EnterIpState, IpKey, PlayerState, Scene, SceneEvent, TeamPickerMenuState,
};
use guards::game::{GameState, Team};
use guards::menu::{move_down, move_up, MenuOption, MenuState, MENU_ITEMS};

const OPEN_MAP: &str =
    "0000000\n0000000\n0000000\n0000000\n0000000\n0000000\n0000000\n0000000\n0000000\n";

fn at(x: u32, y: u32) -> BoardSquareCoords {
    BoardSquareCoords(x, y)
}

#[test]
fn main_menu_leads_on() {
    let menu = Scene::MainMenu;
    assert_eq!(menu.next(SceneEvent::MenuChosen(MenuOption::LocalGame)), Some(Scene::InGame));
    assert_eq!(
        menu.next(SceneEvent::MenuChosen(MenuOption::HostMultiplayer)),
        Some(Scene::InGame)
    );
    assert_eq!(
        menu.next(SceneEvent::MenuChosen(MenuOption::JoinMultiplayer)),
        Some(Scene::EnterIp)
    );
    assert_eq!(menu.next(SceneEvent::MenuChosen(MenuOption::Quit)), None);
}

#[test]
fn joining_a_game_goes_through_address_and_team() {
    let mut scene = Scene::MainMenu;
    scene = scene.next(SceneEvent::MenuChosen(MenuOption::JoinMultiplayer)).unwrap();
    assert_eq!(scene, Scene::EnterIp);
    scene = scene.next(SceneEvent::Connected).unwrap();
    assert_eq!(scene, Scene::TeamPicker);
    scene = scene.next(SceneEvent::TeamPicked).unwrap();
    assert_eq!(scene, Scene::InGame);
}

#[test]
fn hosting_a_game_asks_for_the_team_in_the_game() {
    let scene = Scene::MainMenu.next(SceneEvent::MenuChosen(MenuOption::HostMultiplayer));
    assert_eq!(scene, Some(Scene::InGame));
    assert_eq!(Scene::InGame.next(SceneEvent::TeamMissing), Some(Scene::TeamPicker));
    assert_eq!(Scene::TeamPicker.next(SceneEvent::TeamPicked), Some(Scene::InGame));
}

#[test]
fn leaving_and_disconnecting_lead_to_the_main_menu() {
    for scene in [Scene::InGame, Scene::MainMenu, Scene::TeamPicker, Scene::EnterIp] {
        assert_eq!(scene.next(SceneEvent::Leave), Some(Scene::MainMenu));
        assert_eq!(scene.next(SceneEvent::Disconnected), Some(Scene::MainMenu));
    }
}

#[test]
fn events_that_do_not_belong_change_nothing() {
    for scene in [Scene::InGame, Scene::TeamPicker, Scene::EnterIp] {
        for option in [
            MenuOption::LocalGame,
            MenuOption::HostMultiplayer,
            MenuOption::JoinMultiplayer,
            MenuOption::Quit,
        ] {
            assert_eq!(scene.next(SceneEvent::MenuChosen(option)), Some(scene));
        }
    }
    for scene in [Scene::InGame, Scene::MainMenu, Scene::TeamPicker] {
        assert_eq!(scene.next(SceneEvent::Connected), Some(scene));
    }
    for scene in [Scene::InGame, Scene::MainMenu, Scene::EnterIp] {
        assert_eq!(scene.next(SceneEvent::TeamPicked), Some(scene));
    }
    for scene in [Scene::MainMenu, Scene::TeamPicker, Scene::EnterIp] {
        assert_eq!(scene.next(SceneEvent::TeamMissing), Some(scene));
    }
}

#[test]
fn player_starts_with_nothing() {
    let player = PlayerState::new();
    assert_eq!(player.selected_square, None);
    assert_eq!(player.playing_as, None);
}

#[test]
fn first_click_picks_up_second_click_moves() {
    let game = GameState::new(Board::new(OPEN_MAP).unwrap());
    let mut player = PlayerState::new();
    player.playing_as = Some(Team::White);
    assert_eq!(player.click_square(&game, at(2, 6)), None);
    assert_eq!(player.selected_square, Some(at(2, 6)));
    assert_eq!(player.click_square(&game, at(2, 8)), Some((at(2, 6), at(2, 8))));
    assert_eq!(player.selected_square, None);
    assert_eq!(player.playing_as, Some(Team::White));
}

#[test]
fn second_click_on_an_illegal_square_puts_down() {
    let game = GameState::new(Board::new(OPEN_MAP).unwrap());
    let mut player = PlayerState::new();
    assert_eq!(player.click_square(&game, at(2, 6)), None);
    assert_eq!(player.click_square(&game, at(3, 7)), None);
    assert_eq!(player.selected_square, None);
    // Any square can be picked up; whether it can move shows at the second click.
    assert_eq!(player.click_square(&game, at(0, 0)), None);
    assert_eq!(player.selected_square, Some(at(0, 0)));
    assert_eq!(player.click_square(&game, at(0, 1)), None);
    assert_eq!(player.selected_square, None);
}

#[test]
fn right_click_puts_down() {
    let game = GameState::new(Board::new(OPEN_MAP).unwrap());
    let mut player = PlayerState::new();
    player.playing_as = Some(Team::Purple);
    player.click_square(&game, at(2, 6));
    player.clear_selection();
    assert_eq!(player.selected_square, None);
    assert_eq!(player.playing_as, Some(Team::Purple));
    assert_eq!(player.click_square(&game, at(2, 8)), None);
    assert_eq!(player.selected_square, Some(at(2, 8)));
}

#[test]
fn team_picker_starts_on_purple() {
    let picker = TeamPickerMenuState::new();
    assert_eq!(picker.selected_team_index, 0);
    assert_eq!(picker.selected_team(), Team::Purple);
}

#[test]
fn team_picker_moves_between_two_teams() {
    let mut picker = TeamPickerMenuState::new();
    picker.key_up();
    assert_eq!(picker.selected_team_index, 0);
    picker.key_down();
    assert_eq!(picker.selected_team_index, 1);
    assert_eq!(picker.selected_team(), Team::White);
    picker.key_down();
    assert_eq!(picker.selected_team_index, 1);
    picker.key_up();
    assert_eq!(picker.selected_team_index, 0);
    assert_eq!(picker.selected_team(), Team::Purple);
}

#[test]
fn team_picker_follows_the_pointer() {
    let mut picker = TeamPickerMenuState::new();
    assert_eq!(picker.hover(1), Some(Team::White));
    assert_eq!(picker.selected_team_index, 1);
    assert_eq!(picker.hover(0), Some(Team::Purple));
    assert_eq!(picker.selected_team_index, 0);
    assert_eq!(picker.hover(2), None);
    assert_eq!(picker.selected_team_index, 0);
    assert_eq!(TeamPickerMenuState::team_from_index(0), Some(Team::Purple));
    assert_eq!(TeamPickerMenuState::team_from_index(1), Some(Team::White));
    assert_eq!(TeamPickerMenuState::team_from_index(2), None);
}

#[test]
fn address_starts_empty() {
    assert_eq!(EnterIpState::new().ip_input, "");
}

#[test]
fn address_is_typed_key_by_key() {
    let mut state = EnterIpState::new();
    for key in [
        IpKey::Digit(1),
        IpKey::Digit(9),
        IpKey::Digit(2),
        IpKey::Period,
        IpKey::Digit(1),
        IpKey::Digit(6),
        IpKey::Digit(8),
        IpKey::Period,
        IpKey::Digit(0),
        IpKey::Period,
        IpKey::Digit(7),
        IpKey::Colon,
        IpKey::Digit(3),
        IpKey::Digit(4),
        IpKey::Digit(8),
        IpKey::Digit(6),
        IpKey::Digit(5),
    ] {
        state.key_pressed(key);
    }
    assert_eq!(state.ip_input, "192.168.0.7:34865");
}

#[test]
fn backspace_takes_the_last_character() {
    let mut state = EnterIpState::new();
    state.key_pressed(IpKey::Backspace);
    assert_eq!(state.ip_input, "");
    state.key_pressed(IpKey::Digit(1));
    state.key_pressed(IpKey::Period);
    state.key_pressed(IpKey::Colon);
    assert_eq!(state.ip_input, "1.:");
    state.key_pressed(IpKey::Backspace);
    assert_eq!(state.ip_input, "1.");
    state.key_pressed(IpKey::Backspace);
    state.key_pressed(IpKey::Backspace);
    assert_eq!(state.ip_input, "");
    state.key_pressed(IpKey::Backspace);
    assert_eq!(state.ip_input, "");
}

#[test]
fn a_number_key_types_its_number() {
    let mut state = EnterIpState::new();
    state.key_pressed(IpKey::Digit(0));
    state.key_pressed(IpKey::Digit(42));
    assert_eq!(state.ip_input, "042");
}

#[test]
fn a_move_from_the_server_is_carried_out() {
    let mut game = GameState::new(Board::new(OPEN_MAP).unwrap());
    assert!(receive_line(&mut game, "move white (2,6) (2,8)"));
    assert_eq!(game.turn, Team::Purple);
    assert_eq!(
        game.get_board().get(at(2, 8)).unwrap().occupant,
        SquareOccupant::Citizen(Team::White)
    );
    assert!(receive_line(&mut game, "move purple (2,2) (2,0)\n"));
    assert_eq!(game.turn, Team::White);
}

#[test]
fn the_client_judges_the_move_itself() {
    let mut game = GameState::new(Board::new(OPEN_MAP).unwrap());
    // Not Purple's turn.
    assert!(!receive_line(&mut game, "move purple (2,2) (2,0)"));
    // Not a legal move.
    assert!(!receive_line(&mut game, "move white (2,6) (3,7)"));
    assert!(!receive_line(&mut game, "move white (900,900) (900,901)"));
    assert_eq!(game.turn, Team::White);
    assert_eq!(
        game.get_board().get(at(2, 6)).unwrap().occupant,
        SquareOccupant::Citizen(Team::White)
    );
}

#[test]
fn other_lines_do_not_touch_the_game() {
    let mut game = GameState::new(Board::new(OPEN_MAP).unwrap());
    for line in [
        "join white",
        "error INVALIDMOVE Invalid move",
        "move white (2,6)",
        "move white (2,6) 2,8",
        "",
        "rubbish",
    ] {
        assert!(!receive_line(&mut game, line), "{line:?}");
    }
    assert_eq!(game.turn, Team::White);
}

#[test]
fn menu_starts_at_the_top() {
    let menu = MenuState::new();
    assert_eq!(menu.selected_index, 0);
    assert_eq!(menu.selected_option(), MenuOption::LocalGame);
}

#[test]
fn menu_entries_in_order() {
    assert_eq!(MENU_ITEMS, 4);
    assert_eq!(MenuOption::from_index(0), Some(MenuOption::LocalGame));
    assert_eq!(MenuOption::from_index(1), Some(MenuOption::HostMultiplayer));
    assert_eq!(MenuOption::from_index(2), Some(MenuOption::JoinMultiplayer));
    assert_eq!(MenuOption::from_index(3), Some(MenuOption::Quit));
    assert_eq!(MenuOption::from_index(4), None);
    assert_eq!(MenuOption::LocalGame.label(), "New Local Game");
    assert_eq!(MenuOption::HostMultiplayer.label(), "Host Multiplayer Game");
    assert_eq!(MenuOption::JoinMultiplayer.label(), "Join Multiplayer Game");
    assert_eq!(MenuOption::Quit.label(), "Quit");
}

#[test]
fn menu_keys_stop_at_both_ends() {
    let mut menu = MenuState::new();
    menu.key_up();
    assert_eq!(menu.selected_index, 0);
    for expected in [1, 2, 3, 3, 3] {
        menu.key_down();
        assert_eq!(menu.selected_index, expected);
    }
    assert_eq!(menu.selected_option(), MenuOption::Quit);
    for expected in [2, 1, 0, 0] {
        menu.key_up();
        assert_eq!(menu.selected_index, expected);
    }
}

#[test]
fn menu_follows_the_pointer() {
    let mut menu = MenuState::new();
    assert_eq!(menu.hover(2), Some(MenuOption::JoinMultiplayer));
    assert_eq!(menu.selected_index, 2);
    assert_eq!(menu.selected_option(), MenuOption::JoinMultiplayer);
    assert_eq!(menu.hover(4), None);
    assert_eq!(menu.selected_index, 2);
}

#[test]
fn menu_steps_clamp() {
    assert_eq!(move_down(0, 4), 1);
    assert_eq!(move_down(3, 4), 3);
    assert_eq!(move_down(9, 4), 3);
    assert_eq!(move_down(u32::MAX, 4), 3);
    assert_eq!(move_down(0, 1), 0);
    assert_eq!(move_up(0, 4), 0);
    assert_eq!(move_up(1, 4), 0);
    assert_eq!(move_up(3, 4), 2);
    assert_eq!(move_up(4, 4), 3);
    assert_eq!(move_up(9, 4), 3);
    assert_eq!(move_up(u32::MAX, 4), 3);
}
