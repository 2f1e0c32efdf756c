//! Players and the actions they can take.
use vstd::prelude::*;

verus! {

/// What a player can do in one tick.
#[derive(Clone, Copy, Debug, PartialEq, Eq, Structural, Hash)]
pub enum PlayerActions {
    Move,
    CameraYaw,
    Jump,
    PlaceVoxel,
    RemoveVoxel,
    Ability1,
    Ability2,
    Ability3,
    Ability4,
}

/// The shape of the value that an action carries.
#[derive(Clone, Copy, Debug, PartialEq, Eq, Structural)]
pub enum InputControlKind {
    Button,
    Axis,
    DualAxis,
}

impl PlayerActions {
    /// Movement has two axes, the camera's yaw one; everything else is a button.
    pub open spec fn control_kind(self) -> InputControlKind {
        if self == PlayerActions::Move {
            InputControlKind::DualAxis
        } else if self == PlayerActions::CameraYaw {
            InputControlKind::Axis
        } else {
            InputControlKind::Button
        }
    }

    pub fn input_control_kind(&self) -> (kind: InputControlKind)
        ensures
            kind == self.control_kind(),
    {
        match self {
            PlayerActions::Move => InputControlKind::DualAxis,
            PlayerActions::CameraYaw => InputControlKind::Axis,
            _ => InputControlKind::Button,
        }
    }
}

/// The network identity of a player, by its bits.
#[derive(Clone, Copy, Debug, PartialEq, Eq, Structural, Hash)]
pub struct PlayerId(pub u64);

/// The actions that a player pressed in the current tick.
#[derive(Debug)]
pub struct ActionState {
    pub pressed: Vec<PlayerActions>,
}

impl ActionState {
    pub open spec fn just_pressed_spec(&self, action: PlayerActions) -> bool {
        self.pressed@.contains(action)
    }

    pub fn just_pressed(&self, action: PlayerActions) -> (pressed: bool)
        ensures
            pressed == self.just_pressed_spec(action),
    {
        let mut i: usize = 0;
        while i < self.pressed.len()
            invariant
                i <= self.pressed@.len(),
                forall|j: int| 0 <= j < i ==> self.pressed@[j] != action,
            decreases self.pressed@.len() - i,
        {
            if self.pressed[i] == action {
                assert(self.pressed@[i as int] == action);
                return true;
            }
            i = i + 1;
        }
        false
    }
}

/// Something on an input device that an action can be bound to.
#[derive(Clone, Copy, Debug, PartialEq, Eq, Structural)]
pub enum InputSource {
    Space,
    /// The key of the digit, in the row above the letters.
    Digit(u8),
    /// The keys W, A, S and D, as two axes.
    Wasd,
    LeftMouseButton,
    RightMouseButton,
    /// The lower one of a gamepad's four action buttons.
    GamepadSouth,
    GamepadLeftStick,
}

/// An action and what it is bound to.
#[derive(Clone, Copy, Debug, PartialEq, Eq, Structural)]
pub struct Binding {
    pub action: PlayerActions,
    pub source: InputSource,
}

/// The bindings of a player's character.
pub open spec fn bindings() -> Seq<Binding> {
    seq![
        Binding { action: PlayerActions::Jump, source: InputSource::Space },
        Binding { action: PlayerActions::Jump, source: InputSource::GamepadSouth },
        Binding { action: PlayerActions::Move, source: InputSource::GamepadLeftStick },
        Binding { action: PlayerActions::Move, source: InputSource::Wasd },
        Binding { action: PlayerActions::PlaceVoxel, source: InputSource::LeftMouseButton },
        Binding { action: PlayerActions::RemoveVoxel, source: InputSource::RightMouseButton },
        Binding { action: PlayerActions::Ability1, source: InputSource::Digit(1) },
        Binding { action: PlayerActions::Ability2, source: InputSource::Digit(2) },
        Binding { action: PlayerActions::Ability3, source: InputSource::Digit(3) },
        Binding { action: PlayerActions::Ability4, source: InputSource::Digit(4) },
    ]
}

pub fn input_bindings() -> (all: Vec<Binding>)
    ensures
        all@ == bindings(),
{
    let all: Vec<Binding> = vec![
        Binding { action: PlayerActions::Jump, source: InputSource::Space },
        Binding { action: PlayerActions::Jump, source: InputSource::GamepadSouth },
        Binding { action: PlayerActions::Move, source: InputSource::GamepadLeftStick },
        Binding { action: PlayerActions::Move, source: InputSource::Wasd },
        Binding { action: PlayerActions::PlaceVoxel, source: InputSource::LeftMouseButton },
        Binding { action: PlayerActions::RemoveVoxel, source: InputSource::RightMouseButton },
        Binding { action: PlayerActions::Ability1, source: InputSource::Digit(1) },
        Binding { action: PlayerActions::Ability2, source: InputSource::Digit(2) },
        Binding { action: PlayerActions::Ability3, source: InputSource::Digit(3) },
        Binding { action: PlayerActions::Ability4, source: InputSource::Digit(4) },
    ];
    assert(all@ =~= bindings());
    all
}

/// Whether `source` is bound to `action`.
pub open spec fn is_bound(action: PlayerActions, source: InputSource) -> bool {
    bindings().contains(Binding { action, source })
}

/// Nothing is bound to two actions.
pub proof fn law_bindings_are_unambiguous(a: PlayerActions, b: PlayerActions, source: InputSource)
    requires
        is_bound(a, source),
        is_bound(b, source),
    ensures
        a == b,
{
}

/// Each action but the camera's yaw, which the camera itself sets, can be reached.
pub proof fn law_actions_are_bound(action: PlayerActions)
    requires
        action != PlayerActions::CameraYaw,
    ensures
        exists|source: InputSource| is_bound(action, source),
{
    let i: int = match action {
        PlayerActions::Jump => 0,
        PlayerActions::Move => 2,
        PlayerActions::PlaceVoxel => 4,
        PlayerActions::RemoveVoxel => 5,
        PlayerActions::Ability1 => 6,
        PlayerActions::Ability2 => 7,
        PlayerActions::Ability3 => 8,
        _ => 9,
    };
    let binding = bindings()[i];
    assert(binding.action == action);
    assert(is_bound(action, binding.source));
}

/// A player jumps with the space bar or the lower button of a gamepad, moves with the keys or the left
/// stick, places and removes voxels with the mouse, and has its abilities on the digits from one to
/// four. Nothing else is bound.
pub proof fn law_controls(action: PlayerActions, source: InputSource)
    ensures
        is_bound(action, source) <==> match source {
            InputSource::Space => action == PlayerActions::Jump,
            InputSource::GamepadSouth => action == PlayerActions::Jump,
            InputSource::GamepadLeftStick => action == PlayerActions::Move,
            InputSource::Wasd => action == PlayerActions::Move,
            InputSource::LeftMouseButton => action == PlayerActions::PlaceVoxel,
            InputSource::RightMouseButton => action == PlayerActions::RemoveVoxel,
            InputSource::Digit(n) => {
                ||| n == 1 && action == PlayerActions::Ability1
                ||| n == 2 && action == PlayerActions::Ability2
                ||| n == 3 && action == PlayerActions::Ability3
                ||| n == 4 && action == PlayerActions::Ability4
            },
        },
{
    let all = bindings();
    assert(all[0].source == InputSource::Space && all[1].source == InputSource::GamepadSouth
        && all[2].source == InputSource::GamepadLeftStick && all[3].source == InputSource::Wasd
        && all[4].source == InputSource::LeftMouseButton && all[5].source
        == InputSource::RightMouseButton && all[6].source == InputSource::Digit(1) && all[7].source
        == InputSource::Digit(2) && all[8].source == InputSource::Digit(3) && all[9].source
        == InputSource::Digit(4));
}

/// Moving takes two axes, turning the camera one, and everything else a press.
pub proof fn law_actions_have_their_shape(action: PlayerActions)
    ensures
        action.control_kind() == InputControlKind::DualAxis <==> action == PlayerActions::Move,
        action.control_kind() == InputControlKind::Axis <==> action == PlayerActions::CameraYaw,
{
}

} // verus!
