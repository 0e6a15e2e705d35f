//! View-side state the windowed shell routes input through: the global
//! orbit-camera presets behind the VIEW buttons, the player camera-mode
//! labels, and the held movement keys.

use vstd::prelude::*;

verus! {

/// Global orbit-camera presets behind the panel VIEW buttons (and the
/// `G`/`T`/`B`/`R` keys).
#[derive(Clone, Copy, Debug, PartialEq, Eq, Structural)]
pub enum GlobalPreset {
    Top,
    Bottom,
    Right,
    Perspective,
}

/// Panel buttons in draw/hit-test order: Top, Bot, Right, Persp.
pub open spec fn preset_at(index: nat) -> Option<GlobalPreset> {
    if index == 0 {
        Some(GlobalPreset::Top)
    } else if index == 1 {
        Some(GlobalPreset::Bottom)
    } else if index == 2 {
        Some(GlobalPreset::Right)
    } else if index == 3 {
        Some(GlobalPreset::Perspective)
    } else {
        None
    }
}

pub open spec fn preset_label(preset: GlobalPreset) -> Seq<char> {
    match preset {
        GlobalPreset::Top => "Top"@,
        GlobalPreset::Bottom => "Bot"@,
        GlobalPreset::Right => "Right"@,
        GlobalPreset::Perspective => "Persp"@,
    }
}

impl GlobalPreset {
    /// The preset of the `index`-th panel button, if there is one.
    pub fn from_index(index: usize) -> (preset: Option<GlobalPreset>)
        ensures
            preset == preset_at(index as nat),
    {
        match index {
            0 => Some(GlobalPreset::Top),
            1 => Some(GlobalPreset::Bottom),
            2 => Some(GlobalPreset::Right),
            3 => Some(GlobalPreset::Perspective),
            _ => None,
        }
    }

    /// Button caption.
    pub fn label(self) -> (text: &'static str)
        ensures
            text@ == preset_label(self),
    {
        match self {
            GlobalPreset::Top => "Top",
            GlobalPreset::Bottom => "Bot",
            GlobalPreset::Right => "Right",
            GlobalPreset::Perspective => "Persp",
        }
    }
}

/// Exactly four panel buttons, one per preset, each preset on one button.
pub proof fn presets_cover_buttons(index: nat, preset: GlobalPreset)
    ensures
        preset_at(index) is Some <==> index < 4,
        exists|i: nat| i < 4 && preset_at(i) == Some(preset),
        preset_at(index) == Some(preset) ==> forall|j: nat| preset_at(j) == Some(preset) ==> j == index,
{
    match preset {
        GlobalPreset::Top => assert(preset_at(0) == Some(preset)),
        GlobalPreset::Bottom => assert(preset_at(1) == Some(preset)),
        GlobalPreset::Right => assert(preset_at(2) == Some(preset)),
        GlobalPreset::Perspective => assert(preset_at(3) == Some(preset)),
    }
}

/// Player camera modes, in the order `P` cycles through them.
#[derive(Clone, Copy, Debug, PartialEq, Eq, Structural)]
pub enum CameraMode {
    Follow,
    FirstPerson,
    ThirdPerson,
    Global,
}

pub open spec fn mode_label(mode: CameraMode) -> Seq<char> {
    match mode {
        CameraMode::Follow => "follow"@,
        CameraMode::FirstPerson => "first"@,
        CameraMode::ThirdPerson => "third"@,
        CameraMode::Global => "global"@,
    }
}

/// Short panel label for a player camera mode.
pub fn short_mode(mode: CameraMode) -> (text: &'static str)
    ensures
        text@ == mode_label(mode),
{
    match mode {
        CameraMode::Follow => "follow",
        CameraMode::FirstPerson => "first",
        CameraMode::ThirdPerson => "third",
        CameraMode::Global => "global",
    }
}

/// Held movement keys. North/south drive thrust (forward/backward along
/// the heading), west/east rotate the heading (left/right); opposing pairs
/// cancel.
#[derive(Clone, Copy, Debug, PartialEq, Eq, Structural)]
pub struct MoveKeys {
    pub north: bool,
    pub south: bool,
    pub west: bool,
    pub east: bool,
}

/// Movement axes folded from the held keys: each is -1, 0 or 1.
#[derive(Clone, Copy, Debug, PartialEq, Eq, Structural)]
pub struct MoveAxes {
    /// Forward (+1) or backward (-1) along the heading.
    pub thrust: i8,
    /// Right (+1) or left (-1).
    pub turn: i8,
}

/// `+1` when only the positive key is held, `-1` when only the negative
/// one is, `0` otherwise.
pub open spec fn axis(pos: bool, neg: bool) -> int {
    (if pos { 1int } else { 0int }) - (if neg { 1int } else { 0int })
}

pub open spec fn move_axes(keys: MoveKeys) -> MoveAxes {
    MoveAxes { thrust: axis(keys.north, keys.south) as i8, turn: axis(keys.east, keys.west) as i8 }
}

fn fold_axis(pos: bool, neg: bool) -> (value: i8)
    ensures
        value == axis(pos, neg),
{
    (if pos { 1i8 } else { 0i8 }) - (if neg { 1i8 } else { 0i8 })
}

impl MoveKeys {
    /// Fold held keys into movement axes: north/south → thrust `±1`,
    /// east/west → turn `±1`.
    pub fn input(self) -> (axes: MoveAxes)
        ensures
            axes == move_axes(self),
            axes.thrust == axis(self.north, self.south),
            axes.turn == axis(self.east, self.west),
    {
        MoveAxes { thrust: fold_axis(self.north, self.south), turn: fold_axis(self.east, self.west) }
    }
}

impl Default for MoveKeys {
    /// No key held.
    fn default() -> (keys: MoveKeys)
        ensures
            !keys.north && !keys.south && !keys.west && !keys.east,
    {
        MoveKeys { north: false, south: false, west: false, east: false }
    }
}

/// Opposing keys cancel, and with no key held the player idles; north
/// alone thrusts forward and south alone backward, east alone turns right
/// and west alone left.
pub proof fn opposing_keys_cancel(keys: MoveKeys)
    ensures
        keys.north && !keys.south ==> move_axes(keys).thrust == 1,
        keys.south && !keys.north ==> move_axes(keys).thrust == -1,
        keys.east && !keys.west ==> move_axes(keys).turn == 1,
        keys.west && !keys.east ==> move_axes(keys).turn == -1,
        keys.north == keys.south ==> move_axes(keys).thrust == 0,
        keys.east == keys.west ==> move_axes(keys).turn == 0,
        -1 <= move_axes(keys).thrust <= 1,
        -1 <= move_axes(keys).turn <= 1,
{
}

} // verus!
