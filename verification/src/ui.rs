//! The client's screens: which one is up, what is on it, and what its buttons do.
use crate::map::types::{MapInstanceId, MapSwitchTarget};
use vstd::prelude::*;

verus! {

/// Where the client is.
#[derive(Clone, Copy, Debug, PartialEq, Eq, Structural, Hash)]
pub enum ClientState {
    MainMenu,
    Connecting,
    InGame,
}

impl Default for ClientState {
    fn default() -> (state: ClientState)
        ensures
            state == ClientState::MainMenu,
    {
        ClientState::MainMenu
    }
}

/// Whether a client in the game is on its way to another map.
#[derive(Clone, Copy, Debug, PartialEq, Eq, Structural, Hash)]
pub enum MapTransitionState {
    Playing,
    Transitioning,
}

impl Default for MapTransitionState {
    fn default() -> (state: MapTransitionState)
        ensures
            state == MapTransitionState::Playing,
    {
        MapTransitionState::Playing
    }
}

/// A button.
#[derive(Clone, Copy, Debug, PartialEq, Eq, Structural, Hash)]
pub enum Button {
    Connect,
    Cancel,
    MapSwitch,
    MainMenu,
    Quit,
}

/// What the client does when a button is pressed.
#[derive(Clone, Copy, Debug, PartialEq, Eq, Structural)]
pub enum UiEffect {
    Nothing,
    Disconnect,
    Exit,
    RequestMap(MapSwitchTarget),
}

/// The client's state, and the states that it takes on at the next update.
///
/// There is a transition state in the game only.
#[derive(Clone, Copy, Debug, PartialEq, Eq, Structural)]
pub struct UiState {
    pub client: ClientState,
    pub transition: Option<MapTransitionState>,
    pub next_client: Option<ClientState>,
    pub next_transition: Option<MapTransitionState>,
}

/// Whether a button is on the screen of a state.
pub open spec fn is_shown(button: Button, state: ClientState) -> bool {
    match button {
        Button::Connect => state == ClientState::MainMenu,
        Button::Cancel => state == ClientState::Connecting,
        Button::MapSwitch | Button::MainMenu => state == ClientState::InGame,
        Button::Quit => state != ClientState::Connecting,
    }
}

/// The map that the map switch button asks for.
pub open spec fn switch_target_spec(current: MapInstanceId) -> MapSwitchTarget {
    match current {
        MapInstanceId::Overworld => MapSwitchTarget::Homebase,
        MapInstanceId::Homebase { .. } => MapSwitchTarget::Overworld,
    }
}

pub fn switch_target(current: MapInstanceId) -> (target: MapSwitchTarget)
    ensures
        target == switch_target_spec(current),
{
    match current {
        MapInstanceId::Overworld => MapSwitchTarget::Homebase,
        MapInstanceId::Homebase { .. } => MapSwitchTarget::Overworld,
    }
}

impl UiState {
    pub open spec fn wf(self) -> bool {
        self.transition is Some <==> self.client == ClientState::InGame
    }

    /// The state that is asked for, if one is.
    pub open spec fn with_next_client(self, next: ClientState) -> UiState {
        UiState { next_client: Some(next), ..self }
    }

    pub fn new() -> (state: UiState)
        ensures
            state.wf(),
            state.client == ClientState::MainMenu,
            state.next_client is None,
            state.next_transition is None,
    {
        UiState {
            client: ClientState::MainMenu,
            transition: None,
            next_client: None,
            next_transition: None,
        }
    }

    /// The connection stands: the game begins at the next update.
    pub fn on_client_connected(&mut self)
        ensures
            *final(self) == old(self).with_next_client(ClientState::InGame),
    {
        self.next_client = Some(ClientState::InGame);
    }

    /// The connection is gone: back to the main menu, unless the client is there.
    pub fn on_client_disconnected(&mut self)
        ensures
            *final(self) == (if old(self).client == ClientState::MainMenu {
                *old(self)
            } else {
                old(self).with_next_client(ClientState::MainMenu)
            }),
    {
        if self.client != ClientState::MainMenu {
            self.next_client = Some(ClientState::MainMenu);
        }
    }

    /// Asks for a transition state. It is taken on at the next update, if the client is in the game
    /// by then.
    pub fn set_transition(&mut self, next: MapTransitionState)
        ensures
            *final(self) == (UiState { next_transition: Some(next), ..*old(self) }),
    {
        self.next_transition = Some(next);
    }

    /// The state after a button was pressed.
    pub open spec fn pressed(self, button: Button) -> UiState {
        if !is_shown(button, self.client) {
            self
        } else {
            match button {
                Button::Connect => self.with_next_client(ClientState::Connecting),
                Button::Cancel | Button::MainMenu => self.with_next_client(ClientState::MainMenu),
                Button::MapSwitch | Button::Quit => self,
            }
        }
    }

    /// What the client does when a button is pressed. Buttons that are not on the screen do nothing.
    pub open spec fn effect_of(self, button: Button, current: Option<MapInstanceId>) -> UiEffect {
        if !is_shown(button, self.client) {
            UiEffect::Nothing
        } else {
            match button {
                Button::Connect => UiEffect::Nothing,
                Button::Cancel | Button::MainMenu => UiEffect::Disconnect,
                Button::Quit => UiEffect::Exit,
                Button::MapSwitch => if self.transition == Some(MapTransitionState::Transitioning) {
                    UiEffect::Nothing
                } else {
                    UiEffect::RequestMap(switch_target_spec(current->0))
                },
            }
        }
    }

    /// A button was pressed. `current` is the map that the player is on.
    ///
    /// Whoever is in the game and not on the way to another map is on a map.
    pub fn press(&mut self, button: Button, current: Option<MapInstanceId>) -> (effect: UiEffect)
        requires
            old(self).wf(),
            button == Button::MapSwitch && old(self).transition == Some(MapTransitionState::Playing)
                ==> current is Some,
        ensures
            final(self).wf(),
            *final(self) == old(self).pressed(button),
            effect == old(self).effect_of(button, current),
    {
        match (self.client, button) {
            (ClientState::MainMenu, Button::Connect) => {
                self.next_client = Some(ClientState::Connecting);
                UiEffect::Nothing
            },
            (ClientState::Connecting, Button::Cancel) | (ClientState::InGame, Button::MainMenu) => {
                self.next_client = Some(ClientState::MainMenu);
                UiEffect::Disconnect
            },
            (ClientState::MainMenu, Button::Quit) | (ClientState::InGame, Button::Quit) => UiEffect::Exit,
            (ClientState::InGame, Button::MapSwitch) => match (self.transition, current) {
                (Some(MapTransitionState::Playing), Some(map)) => {
                    UiEffect::RequestMap(switch_target(map))
                },
                _ => UiEffect::Nothing,
            },
            _ => UiEffect::Nothing,
        }
    }

    /// The state after an update.
    pub open spec fn updated(self) -> UiState {
        let client = match self.next_client {
            Some(next) => next,
            None => self.client,
        };
        let transition = if client != ClientState::InGame {
            None
        } else if self.next_transition is Some {
            self.next_transition
        } else if self.transition is Some {
            self.transition
        } else {
            Some(MapTransitionState::Playing)
        };
        UiState { client, transition, next_client: None, next_transition: None }
    }

    /// Takes on the states that were asked for, and says whether a connection has to be made: the
    /// client has just begun to connect.
    pub fn update(&mut self) -> (connect: bool)
        requires
            old(self).wf(),
        ensures
            final(self).wf(),
            *final(self) == old(self).updated(),
            connect == (old(self).client != ClientState::Connecting && final(self).client
                == ClientState::Connecting),
    {
        let before: ClientState = self.client;
        let client: ClientState = match self.next_client {
            Some(next) => next,
            None => self.client,
        };
        self.transition = if client != ClientState::InGame {
            None
        } else if self.next_transition.is_some() {
            self.next_transition
        } else if self.transition.is_some() {
            self.transition
        } else {
            Some(MapTransitionState::Playing)
        };
        self.client = client;
        self.next_client = None;
        self.next_transition = None;
        before != ClientState::Connecting && client == ClientState::Connecting
    }
}

impl Default for UiState {
    fn default() -> (state: UiState)
        ensures
            state.wf(),
            state.client == ClientState::MainMenu,
            state.next_client is None,
            state.next_transition is None,
    {
        UiState::new()
    }
}

/// Whoever enters the game plays, whatever was going on when they left it.
pub proof fn law_game_begins_with_playing(state: UiState)
    requires
        state.wf(),
        state.client == ClientState::InGame,
        state.next_client is Some,
        state.next_client != Some(ClientState::InGame),
    ensures
        state.updated().transition is None,
        state.updated().with_next_client(ClientState::InGame).updated().transition == Some(
            MapTransitionState::Playing,
        ),
{
}

/// A disconnected client ends up in the main menu.
pub proof fn law_disconnect_leads_to_main_menu(state: UiState)
    requires
        state.wf(),
        state.next_client is None,
    ensures
        (if state.client == ClientState::MainMenu {
            state
        } else {
            state.with_next_client(ClientState::MainMenu)
        }).updated().client == ClientState::MainMenu,
{
}

/// Every screen has a way out: a button that exits or leads to another screen.
pub proof fn law_every_screen_has_a_way_out(state: UiState)
    requires
        state.wf(),
    ensures
        exists|button: Button| #[trigger]
            is_shown(button, state.client) && (state.effect_of(button, None) == UiEffect::Exit
                || state.pressed(button).updated().client != state.client),
{
    if state.client == ClientState::Connecting {
        assert(is_shown(Button::Cancel, state.client));
    } else {
        assert(is_shown(Button::Quit, state.client));
    }
}

/// A button and its text.
#[derive(Debug)]
pub struct LabeledButton {
    pub button: Button,
    pub label: String,
}

/// What a screen shows: a heading, and buttons below it or beside it.
#[derive(Debug)]
pub struct Screen {
    pub heading: Option<String>,
    pub buttons: Vec<LabeledButton>,
}

/// The text of the map switch button.
pub open spec fn switch_label(current: MapInstanceId) -> Seq<char> {
    match current {
        MapInstanceId::Overworld => "Homebase"@,
        MapInstanceId::Homebase { .. } => "Overworld"@,
    }
}

/// The text of the map switch button: the map that it leads to.
pub fn map_switch_label(current: MapInstanceId) -> (label: String)
    ensures
        label@ == switch_label(current),
{
    match current {
        MapInstanceId::Overworld => "Homebase".to_string(),
        MapInstanceId::Homebase { .. } => "Overworld".to_string(),
    }
}

/// The heading of a state's screen.
pub open spec fn heading_of(state: ClientState) -> Option<Seq<char>> {
    match state {
        ClientState::MainMenu => Some("Lightyear Client"@),
        ClientState::Connecting => Some("Connecting to server..."@),
        ClientState::InGame => None,
    }
}

/// The buttons of a state's screen and their texts, in order.
pub open spec fn buttons_of(state: ClientState) -> Seq<(Button, Seq<char>)> {
    match state {
        ClientState::MainMenu => seq![(Button::Connect, "Connect"@), (Button::Quit, "Quit"@)],
        ClientState::Connecting => seq![(Button::Cancel, "Cancel"@)],
        ClientState::InGame => seq![
            (Button::MapSwitch, switch_label(MapInstanceId::Overworld)),
            (Button::MainMenu, "Main Menu"@),
            (Button::Quit, "Quit"@),
        ],
    }
}

fn labeled(button: Button, label: &str) -> (labeled: LabeledButton)
    ensures
        labeled.button == button,
        labeled.label@ == label@,
{
    LabeledButton { button, label: label.to_string() }
}

/// The screen that a state begins with.
pub fn screen_of(state: ClientState) -> (screen: Screen)
    ensures
        screen.heading is Some <==> heading_of(state) is Some,
        screen.heading is Some ==> screen.heading->0@ == heading_of(state)->0,
        screen.buttons@.map_values(|b: LabeledButton| (b.button, b.label@)) == buttons_of(state),
{
    let mut buttons: Vec<LabeledButton> = Vec::new();
    let heading: Option<String> = match state {
        ClientState::MainMenu => {
            buttons.push(labeled(Button::Connect, "Connect"));
            buttons.push(labeled(Button::Quit, "Quit"));
            Some("Lightyear Client".to_string())
        },
        ClientState::Connecting => {
            buttons.push(labeled(Button::Cancel, "Cancel"));
            Some("Connecting to server...".to_string())
        },
        ClientState::InGame => {
            buttons.push(labeled(Button::MapSwitch, "Homebase"));
            buttons.push(labeled(Button::MainMenu, "Main Menu"));
            buttons.push(labeled(Button::Quit, "Quit"));
            None
        },
    };
    let screen = Screen { heading, buttons };
    assert(screen.buttons@.map_values(|b: LabeledButton| (b.button, b.label@)) =~= buttons_of(state));
    screen
}

/// The text that covers the screen while the client is on its way to another map.
pub fn loading_text(transition: Option<MapTransitionState>) -> (text: Option<String>)
    ensures
        text is Some <==> transition == Some(MapTransitionState::Transitioning),
        text is Some ==> text->0@ == "Loading..."@,
{
    match transition {
        Some(MapTransitionState::Transitioning) => Some("Loading...".to_string()),
        _ => None,
    }
}

/// A screen has exactly the buttons that do something on it.
pub proof fn law_screens_show_their_buttons(state: ClientState, button: Button)
    ensures
        is_shown(button, state) <==> exists|i: int|
            0 <= i < buttons_of(state).len() && (#[trigger] buttons_of(state)[i]).0 == button,
{
    let buttons = buttons_of(state);
    if is_shown(button, state) {
        let i: int = match button {
            Button::Connect | Button::Cancel | Button::MapSwitch => 0,
            Button::MainMenu => 1,
            Button::Quit => if state == ClientState::MainMenu {
                1
            } else {
                2
            },
        };
        assert(buttons[i].0 == button);
    }
}

/// Where buttons lead: from the main menu to the server, from there and from the game back to the main
/// menu, and nowhere else. Nothing but the state to come changes.
pub proof fn law_buttons_lead_between_screens(state: UiState, button: Button)
    ensures
        ({
            let after = state.pressed(button);
            &&& after.client == state.client
            &&& after.transition == state.transition
            &&& after.next_transition == state.next_transition
            &&& state.client == ClientState::MainMenu && button == Button::Connect
                ==> after.next_client == Some(ClientState::Connecting)
            &&& state.client == ClientState::Connecting && button == Button::Cancel
                ==> after.next_client == Some(ClientState::MainMenu)
            &&& state.client == ClientState::InGame && button == Button::MainMenu
                ==> after.next_client == Some(ClientState::MainMenu)
            &&& !(state.client == ClientState::MainMenu && button == Button::Connect) && !(
            state.client == ClientState::Connecting && button == Button::Cancel) && !(state.client
                == ClientState::InGame && button == Button::MainMenu) ==> after.next_client
                == state.next_client
        }),
{
}

/// What buttons do: leaving the server or the game disconnects, quitting exits from the menu and from
/// the game, and the map switch asks for the other kind of map, unless the player is on the way. Nothing
/// else does anything.
pub proof fn law_buttons_do_what_they_say(
    state: UiState,
    button: Button,
    current: Option<MapInstanceId>,
)
    requires
        state.wf(),
    ensures
        ({
            let effect = state.effect_of(button, current);
            &&& effect == UiEffect::Disconnect <==> state.client == ClientState::Connecting && button
                == Button::Cancel || state.client == ClientState::InGame && button
                == Button::MainMenu
            &&& effect == UiEffect::Exit <==> button == Button::Quit && state.client
                != ClientState::Connecting
            &&& effect is RequestMap <==> button == Button::MapSwitch && state.client
                == ClientState::InGame && state.transition == Some(MapTransitionState::Playing)
            &&& effect is RequestMap && current == Some(MapInstanceId::Overworld) ==> effect
                == UiEffect::RequestMap(MapSwitchTarget::Homebase)
            &&& effect is RequestMap && current is Some && current->0 is Homebase ==> effect
                == UiEffect::RequestMap(MapSwitchTarget::Overworld)
        }),
{
    assert(state.transition is Some ==> state.transition == Some(MapTransitionState::Playing)
        || state.transition == Some(MapTransitionState::Transitioning));
}

/// An update takes on what was asked for, and forgets that it was. A client in the game is playing or
/// on the way, as was asked for last, and one that was in neither is playing.
pub proof fn law_updates_take_on_what_was_asked(state: UiState)
    ensures
        ({
            let after = state.updated();
            &&& after.next_client is None
            &&& after.next_transition is None
            &&& state.next_client is Some ==> after.client == state.next_client->0
            &&& state.next_client is None ==> after.client == state.client
            &&& after.client != ClientState::InGame ==> after.transition is None
            &&& after.client == ClientState::InGame && state.next_transition is Some
                ==> after.transition == state.next_transition
            &&& after.client == ClientState::InGame && state.next_transition is None
                && state.transition is Some ==> after.transition == state.transition
            &&& after.client == ClientState::InGame && state.next_transition is None
                && state.transition is None ==> after.transition == Some(
                MapTransitionState::Playing,
            )
        }),
{
}

/// Asking for a state changes nothing but what is asked for.
pub proof fn law_asking_waits_for_the_update(state: UiState, next: ClientState)
    ensures
        state.with_next_client(next).next_client == Some(next),
        state.with_next_client(next).client == state.client,
        state.with_next_client(next).transition == state.transition,
        state.with_next_client(next).next_transition == state.next_transition,
        state.wf() <==> (state.transition is Some <==> state.client == ClientState::InGame),
{
}

/// What the screens say: a heading outside the game, and buttons in a fixed order. The map switch names
/// the kind of map that it leads to.
pub proof fn law_screens_say_what_they_are(owner: u64)
    ensures
        heading_of(ClientState::MainMenu) == Some("Lightyear Client"@),
        heading_of(ClientState::Connecting) == Some("Connecting to server..."@),
        heading_of(ClientState::InGame) is None,
        buttons_of(ClientState::MainMenu) == seq![
            (Button::Connect, "Connect"@),
            (Button::Quit, "Quit"@),
        ],
        buttons_of(ClientState::Connecting) == seq![(Button::Cancel, "Cancel"@)],
        buttons_of(ClientState::InGame) == seq![
            (Button::MapSwitch, "Homebase"@),
            (Button::MainMenu, "Main Menu"@),
            (Button::Quit, "Quit"@),
        ],
        switch_label(MapInstanceId::Overworld) == "Homebase"@,
        switch_label(MapInstanceId::Homebase { owner }) == "Overworld"@,
        switch_target_spec(MapInstanceId::Overworld) == MapSwitchTarget::Homebase,
        switch_target_spec(MapInstanceId::Homebase { owner }) == MapSwitchTarget::Overworld,
{
}

} // verus!
