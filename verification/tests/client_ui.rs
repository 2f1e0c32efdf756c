use lightyear_arena::map::types::{MapInstanceId, MapSwitchTarget};
use lightyear_arena::ui::{
    loading_text, map_switch_label, screen_of, switch_target, Button, ClientState,
    MapTransitionState, UiEffect, UiState,
};

fn in_game() -> UiState {
    let mut ui = UiState::new();
    ui.on_client_connected();
    ui.update();
    assert_eq!(ui.client, ClientState::InGame);
    ui
}

#[test]
fn map_transition_state_defaults_to_playing_when_ingame() {
    let ui = in_game();
    assert_eq!(
        ui.transition,
        Some(MapTransitionState::Playing),
        "MapTransitionState should default to Playing when entering InGame"
    );
    assert_eq!(MapTransitionState::default(), MapTransitionState::Playing);
    assert_eq!(ClientState::default(), ClientState::MainMenu);
}

#[test]
fn transitioning_state_spawns_loading_screen() {
    let mut ui = in_game();
    ui.set_transition(MapTransitionState::Transitioning);
    ui.update();
    assert_eq!(loading_text(ui.transition), Some("Loading...".to_string()));
}

#[test]
fn returning_to_playing_despawns_loading_screen() {
    let mut ui = in_game();
    ui.set_transition(MapTransitionState::Transitioning);
    ui.update();
    assert_eq!(loading_text(ui.transition), Some("Loading...".to_string()));
    ui.set_transition(MapTransitionState::Playing);
    ui.update();
    assert_eq!(loading_text(ui.transition), None);
}

#[test]
fn leaving_ingame_resets_transition_state_on_reentry() {
    let mut ui = in_game();
    ui.set_transition(MapTransitionState::Transitioning);
    ui.update();
    ui.on_client_disconnected();
    ui.update();
    assert_eq!(ui.client, ClientState::MainMenu);
    assert_eq!(ui.transition, None);
    ui.on_client_connected();
    ui.update();
    assert_eq!(
        ui.transition,
        Some(MapTransitionState::Playing),
        "Re-entering InGame should reset MapTransitionState to Playing"
    );
}

#[test]
fn transition_states_wait_for_the_game() {
    let mut ui = UiState::new();
    ui.set_transition(MapTransitionState::Transitioning);
    ui.update();
    assert_eq!(ui.transition, None);
    assert_eq!(loading_text(None), None);
}

#[test]
fn connecting_can_be_cancelled() {
    let mut ui = UiState::new();
    assert_eq!(ui.press(Button::Connect, None), UiEffect::Nothing);
    assert!(ui.update(), "entering the connecting screen makes a connection");
    assert_eq!(ui.client, ClientState::Connecting);
    assert!(!ui.update());
    assert_eq!(ui.press(Button::Quit, None), UiEffect::Nothing);
    assert_eq!(ui.press(Button::Cancel, None), UiEffect::Disconnect);
    assert!(!ui.update());
    assert_eq!(ui.client, ClientState::MainMenu);
}

#[test]
fn disconnecting_in_the_menu_changes_nothing() {
    let mut ui = UiState::new();
    ui.on_client_disconnected();
    assert_eq!(ui.next_client, None);
    assert_eq!(ui.press(Button::Quit, None), UiEffect::Exit);
    assert_eq!(ui.press(Button::MainMenu, None), UiEffect::Nothing);
    assert_eq!(ui.next_client, None);
}

#[test]
fn the_game_can_be_left() {
    let mut ui = in_game();
    assert_eq!(ui.press(Button::Quit, None), UiEffect::Exit);
    assert_eq!(ui.press(Button::Connect, None), UiEffect::Nothing);
    assert_eq!(ui.press(Button::MainMenu, None), UiEffect::Disconnect);
    ui.update();
    assert_eq!(ui.client, ClientState::MainMenu);
}

#[test]
fn the_switch_button_leads_to_the_other_map() {
    let home = MapInstanceId::Homebase { owner: 4 };
    let mut ui = in_game();
    assert_eq!(
        ui.press(Button::MapSwitch, Some(MapInstanceId::Overworld)),
        UiEffect::RequestMap(MapSwitchTarget::Homebase)
    );
    assert_eq!(
        ui.press(Button::MapSwitch, Some(home)),
        UiEffect::RequestMap(MapSwitchTarget::Overworld)
    );
    ui.set_transition(MapTransitionState::Transitioning);
    ui.update();
    assert_eq!(ui.press(Button::MapSwitch, Some(home)), UiEffect::Nothing);
    assert_eq!(map_switch_label(MapInstanceId::Overworld), "Homebase");
    assert_eq!(map_switch_label(home), "Overworld");
    assert_eq!(switch_target(home), MapSwitchTarget::Overworld);
}

#[test]
fn screens_show_headings_and_buttons() {
    let menu = screen_of(ClientState::MainMenu);
    assert_eq!(menu.heading, Some("Lightyear Client".to_string()));
    let labels: Vec<(Button, &str)> =
        menu.buttons.iter().map(|b| (b.button, b.label.as_str())).collect();
    assert_eq!(labels, vec![(Button::Connect, "Connect"), (Button::Quit, "Quit")]);

    let connecting = screen_of(ClientState::Connecting);
    assert_eq!(connecting.heading, Some("Connecting to server...".to_string()));
    assert_eq!(connecting.buttons.len(), 1);
    assert_eq!(connecting.buttons[0].label, "Cancel");

    let game = screen_of(ClientState::InGame);
    assert_eq!(game.heading, None);
    let labels: Vec<&str> = game.buttons.iter().map(|b| b.label.as_str()).collect();
    assert_eq!(labels, vec!["Homebase", "Main Menu", "Quit"]);
}
