//! vMix TCP API commands: the fields a command addresses and the command text.
use vstd::prelude::*;

use crate::text::{clone_opt, join2, nat_to_dec, opt_view, succ_to_string, usize_to_string};

verus! {

/// The selection part of a vMix command:
/// `Input=<id>&SelectedName=<name>.<extension>` followed by `&Value=<value>`
/// when the field carries a non-empty value of its own.
pub open spec fn selection_text(
    id: Seq<char>,
    name: Seq<char>,
    extension: Seq<char>,
    value: Option<Seq<char>>,
) -> Seq<char> {
    let base = "Input="@ + id + "&SelectedName="@ + name + "."@ + extension;
    if value is Some && value->0.len() > 0 {
        base + "&Value="@ + value->0
    } else {
        base
    }
}

/// A field of a vMix title that a command can address.
pub trait VMixSelectionTrait: Sized {
    /// The name of the field inside its title.
    spec fn selection_name(&self) -> Seq<char>;

    /// The part of the field that is addressed (`Text`, `Source`, `Fill.Color`).
    spec fn extension(&self) -> Seq<char>;

    /// A value that the field carries itself, if any.
    spec fn value_text(&self) -> Option<Seq<char>>;

    /// The id of the vMix input (title) that holds the field.
    spec fn input(&self) -> Seq<char>;

    /// Whether the field can be rendered (its value, if it has one, exists).
    spec fn well_formed(&self) -> bool;

    fn get_selection_name(&self) -> (r: String)
        ensures
            r@ == self.selection_name(),
    ;

    fn data_extension(&self) -> (r: &'static str)
        ensures
            r@ == self.extension(),
    ;

    fn value(&self) -> (r: Option<String>)
        requires
            self.well_formed(),
        ensures
            opt_view(r) == self.value_text(),
    ;

    fn input_id(&self) -> (r: &'static str)
        ensures
            r@ == self.input(),
    ;

    /// The selection text of this field (see `selection_text`).
    fn get_selection(&self) -> (r: String)
        requires
            self.well_formed(),
        ensures
            r@ == selection_text(self.input(), self.selection_name(), self.extension(), self.value_text()),
    {
        let name = self.get_selection_name();
        let extension = self.data_extension();
        let mut s = String::from_str("Input=");
        s.append(self.input_id());
        s.append("&SelectedName=");
        s.append(name.as_str());
        s.append(".");
        s.append(extension);
        match self.value() {
            Some(value) => {
                if value.unicode_len() > 0 {
                    s.append("&Value=");
                    s.append(value.as_str());
                }
            },
            None => {},
        }
        s
    }
}

/// The selection text of a field.
pub open spec fn selection_of<T: VMixSelectionTrait>(t: T) -> Seq<char> {
    selection_text(t.input(), t.selection_name(), t.extension(), t.value_text())
}

/// The vMix functions that the controller calls.
#[derive(Clone, Copy, Debug, PartialEq, Eq, Structural)]
pub enum VMixFunction {
    SetText,
    SetColor,
    SetTextVisibleOn,
    SetTextVisibleOff,
    SetImage,
    OverlayInput4Off,
    OverlayInput4,
}

impl VMixFunction {
    /// The name of the function in the vMix API.
    pub open spec fn start_text(self) -> Seq<char> {
        match self {
            VMixFunction::SetText => "SetText"@,
            VMixFunction::SetColor => "SetColor"@,
            VMixFunction::SetTextVisibleOn => "SetTextVisibleOn"@,
            VMixFunction::SetTextVisibleOff => "SetTextVisibleOff"@,
            VMixFunction::SetImage => "SetImage"@,
            VMixFunction::OverlayInput4Off => "OverlayInput4Off"@,
            VMixFunction::OverlayInput4 => "OverlayInput4"@,
        }
    }

    pub fn get_start_cmd(&self) -> (r: &'static str)
        ensures
            r@ == self.start_text(),
    {
        match self {
            VMixFunction::SetText => "SetText",
            VMixFunction::SetColor => "SetColor",
            VMixFunction::SetTextVisibleOn => "SetTextVisibleOn",
            VMixFunction::SetTextVisibleOff => "SetTextVisibleOff",
            VMixFunction::SetImage => "SetImage",
            VMixFunction::OverlayInput4Off => "OverlayInput4Off",
            VMixFunction::OverlayInput4 => "OverlayInput4",
        }
    }
}

/// A whole command line of the vMix TCP API:
/// `FUNCTION <name>[ <input>][&Value=<value>]\r\n`, where a value without an
/// input is written ` Value=<value>`.
pub open spec fn cmd_text(start: Seq<char>, input: Option<Seq<char>>, value: Option<Seq<char>>) -> Seq<char> {
    match (input, value) {
        (Some(i), Some(v)) => "FUNCTION "@ + start + " "@ + i + "&Value="@ + v + "\r\n"@,
        (Some(i), None) => "FUNCTION "@ + start + " "@ + i + "\r\n"@,
        (None, Some(v)) => "FUNCTION "@ + start + " Value="@ + v + "\r\n"@,
        (None, None) => "FUNCTION "@ + start + "\r\n"@,
    }
}

/// One vMix function call on a field (or on no field).
pub struct VMixInterfacer<InputEnum: VMixSelectionTrait> {
    pub value: Option<String>,
    pub input: Option<InputEnum>,
    pub function: VMixFunction,
}

impl<InputEnum: VMixSelectionTrait> VMixInterfacer<InputEnum> {
    /// The input part of the command.
    pub open spec fn input_text(&self) -> Option<Seq<char>> {
        match self.function {
            VMixFunction::OverlayInput4 => match self.value {
                Some(v) => Some("Input="@ + v@),
                None => None,
            },
            VMixFunction::OverlayInput4Off => None,
            _ => match self.input {
                Some(i) => Some(selection_of(i)),
                None => None,
            },
        }
    }

    /// The text of the whole command.
    pub open spec fn cmd(&self) -> Seq<char> {
        cmd_text(self.function.start_text(), self.input_text(), opt_view(self.value))
    }

    /// The value of the call as text.
    pub open spec fn value_view(&self) -> Option<Seq<char>> {
        opt_view(self.value)
    }

    /// What the call consists of: the function, the field and the value.
    pub open spec fn parts(&self) -> (VMixFunction, Option<InputEnum>, Option<Seq<char>>) {
        (self.function, self.input, opt_view(self.value))
    }

    pub fn set_only_input(input: InputEnum) -> (r: Self)
        ensures
            r.value is None,
            r.input == Some(input),
            r.function == VMixFunction::SetText,
    {
        Self { value: None, input: Some(input), function: VMixFunction::SetText }
    }

    pub fn set_text(value: String, input: InputEnum) -> (r: Self)
        ensures
            r.value_view() == Some(value@),
            r.input == Some(input),
            r.function == VMixFunction::SetText,
    {
        Self { value: Some(value), input: Some(input), function: VMixFunction::SetText }
    }

    /// Sets a colour; the value is the colour with a `#` in front.
    pub fn set_color(value: &str, input: InputEnum) -> (r: Self)
        ensures
            r.value_view() == Some("#"@ + value@),
            r.input == Some(input),
            r.function == VMixFunction::SetColor,
    {
        Self { value: Some(join2("#", value)), input: Some(input), function: VMixFunction::SetColor }
    }

    pub fn set_text_visible_on(input: InputEnum) -> (r: Self)
        ensures
            r.value is None,
            r.input == Some(input),
            r.function == VMixFunction::SetTextVisibleOn,
    {
        Self { value: None, input: Some(input), function: VMixFunction::SetTextVisibleOn }
    }

    pub fn set_text_visible_off(input: InputEnum) -> (r: Self)
        ensures
            r.value is None,
            r.input == Some(input),
            r.function == VMixFunction::SetTextVisibleOff,
    {
        Self { value: None, input: Some(input), function: VMixFunction::SetTextVisibleOff }
    }

    pub fn set_image(value: String, input: InputEnum) -> (r: Self)
        ensures
            r.value_view() == Some(value@),
            r.input == Some(input),
            r.function == VMixFunction::SetImage,
    {
        Self { value: Some(value), input: Some(input), function: VMixFunction::SetImage }
    }

    pub fn overlay_input_4_off() -> (r: Self)
        ensures
            r.value is None,
            r.input is None,
            r.function == VMixFunction::OverlayInput4Off,
    {
        Self { value: None, input: None, function: VMixFunction::OverlayInput4Off }
    }

    pub fn overlay_input_4(value: &'static str) -> (r: Self)
        ensures
            r.value_view() == Some(value@),
            r.input is None,
            r.function == VMixFunction::OverlayInput4,
    {
        Self { value: Some(String::from_str(value)), input: None, function: VMixFunction::OverlayInput4 }
    }

    /// Whether the call can be rendered.
    pub open spec fn renderable(&self) -> bool {
        self.input matches Some(i) ==> i.well_formed()
    }

    pub fn get_input(&self) -> (r: Option<String>)
        requires
            self.renderable(),
        ensures
            opt_view(r) == self.input_text(),
    {
        match self.function {
            VMixFunction::OverlayInput4 => {
                match &self.value {
                    Some(v) => Some(join2("Input=", v.as_str())),
                    None => None,
                }
            },
            VMixFunction::OverlayInput4Off => None,
            _ => match &self.input {
                Some(i) => Some(i.get_selection()),
                None => None,
            },
        }
    }

    pub fn get_value(&self) -> (r: Option<String>)
        ensures
            opt_view(r) == opt_view(self.value),
    {
        clone_opt(&self.value)
    }

    /// The command line that is sent to vMix for this call.
    pub fn to_cmd(&self) -> (r: String)
        requires
            self.renderable(),
        ensures
            r@ == self.cmd(),
    {
        let cmd = self.function.get_start_cmd();
        let input = self.get_input();
        let value = self.get_value();
        let mut s = String::from_str("FUNCTION ");
        match (input, value) {
            (Some(input), Some(value)) => {
                s.append(cmd);
                s.append(" ");
                s.append(input.as_str());
                s.append("&Value=");
                s.append(value.as_str());
            },
            (Some(input), None) => {
                s.append(cmd);
                s.append(" ");
                s.append(input.as_str());
            },
            (None, Some(value)) => {
                s.append(cmd);
                s.append(" Value=");
                s.append(value.as_str());
            },
            (None, None) => {
                s.append(cmd);
            },
        }
        s.append("\r\n");
        s
    }
}

/// `<prefix><n + 1><suffix>`: a field name with a one-based number in it.
pub open spec fn numbered(prefix: Seq<char>, n: nat, suffix: Seq<char>) -> Seq<char> {
    prefix + nat_to_dec(n + 1) + suffix
}

/// Builds `<prefix><n + 1><suffix>`.
pub fn numbered_name(prefix: &str, n: usize, suffix: &str) -> (r: String)
    ensures
        r@ == numbered(prefix@, n as nat, suffix@),
{
    let mut s = String::from_str(prefix);
    let number = succ_to_string(n);
    s.append(number.as_str());
    s.append(suffix);
    s
}

/// Builds `<prefix><n><suffix>`.
pub fn plain_numbered_name(prefix: &str, n: usize, suffix: &str) -> (r: String)
    ensures
        r@ == prefix@ + nat_to_dec(n as nat) + suffix@,
{
    let mut s = String::from_str(prefix);
    let number = usize_to_string(n);
    s.append(number.as_str());
    s.append(suffix);
    s
}

/// The fields of a player on the scorecard title.
#[derive(Clone, Copy, Debug, PartialEq, Eq, Structural)]
pub enum VMixPlayerInfo {
    Score { hole: usize, player: usize },
    ScoreColor { hole: usize, player: usize },
    Name(usize),
    Surname(usize),
    TotalScore(usize),
    RoundScore(usize),
    Throw(usize),
    PlayerPosition(usize),
    PositionArrow(usize),
    PositionMove(usize),
    HotRound(usize),
    InsidePutt(usize),
    CircleHit(usize),
}

/// The id of the scorecard title.
pub const PLAYER_INFO_INPUT: &'static str = "8db7c455-e05c-4e65-821b-048cd7057cb1";

impl VMixSelectionTrait for VMixPlayerInfo {
    open spec fn selection_name(&self) -> Seq<char> {
        match *self {
            VMixPlayerInfo::Score { hole, player } => numbered("p"@, player as nat, "s"@) + nat_to_dec(hole as nat),
            VMixPlayerInfo::ScoreColor { hole, player } => numbered("p"@, player as nat, "h"@) + nat_to_dec(hole as nat),
            VMixPlayerInfo::PositionArrow(n) => numbered("p"@, n as nat, "posarw"@),
            VMixPlayerInfo::PositionMove(n) => numbered("p"@, n as nat, "posmove"@),
            VMixPlayerInfo::Name(n) => numbered("p"@, n as nat, "name"@),
            VMixPlayerInfo::Surname(n) => numbered("p"@, n as nat, "surname"@),
            VMixPlayerInfo::TotalScore(n) => numbered("p"@, n as nat, "scoretot"@),
            VMixPlayerInfo::RoundScore(n) => numbered("p"@, n as nat, "scorernd"@),
            VMixPlayerInfo::Throw(n) => numbered("p"@, n as nat, "throw"@),
            VMixPlayerInfo::PlayerPosition(n) => numbered("p"@, n as nat, "pos"@),
            VMixPlayerInfo::HotRound(n) => numbered("p"@, n as nat, "hotrnd"@),
            VMixPlayerInfo::CircleHit(n) => numbered("p"@, n as nat, "c1reg"@),
            VMixPlayerInfo::InsidePutt(n) => numbered("p"@, n as nat, "c1x"@),
        }
    }

    open spec fn extension(&self) -> Seq<char> {
        match *self {
            VMixPlayerInfo::ScoreColor { .. } => "Fill.Color"@,
            VMixPlayerInfo::PositionArrow(_) | VMixPlayerInfo::HotRound(_) => "Source"@,
            _ => "Text"@,
        }
    }

    open spec fn value_text(&self) -> Option<Seq<char>> {
        None
    }

    open spec fn input(&self) -> Seq<char> {
        PLAYER_INFO_INPUT@
    }

    open spec fn well_formed(&self) -> bool {
        true
    }

    fn get_selection_name(&self) -> (r: String) {
        match *self {
            VMixPlayerInfo::Score { hole, player } => {
                let mut s = numbered_name("p", player, "s");
                let h = usize_to_string(hole);
                s.append(h.as_str());
                s
            },
            VMixPlayerInfo::ScoreColor { hole, player } => {
                let mut s = numbered_name("p", player, "h");
                let h = usize_to_string(hole);
                s.append(h.as_str());
                s
            },
            VMixPlayerInfo::PositionArrow(n) => numbered_name("p", n, "posarw"),
            VMixPlayerInfo::PositionMove(n) => numbered_name("p", n, "posmove"),
            VMixPlayerInfo::Name(n) => numbered_name("p", n, "name"),
            VMixPlayerInfo::Surname(n) => numbered_name("p", n, "surname"),
            VMixPlayerInfo::TotalScore(n) => numbered_name("p", n, "scoretot"),
            VMixPlayerInfo::RoundScore(n) => numbered_name("p", n, "scorernd"),
            VMixPlayerInfo::Throw(n) => numbered_name("p", n, "throw"),
            VMixPlayerInfo::PlayerPosition(n) => numbered_name("p", n, "pos"),
            VMixPlayerInfo::HotRound(n) => numbered_name("p", n, "hotrnd"),
            VMixPlayerInfo::CircleHit(n) => numbered_name("p", n, "c1reg"),
            VMixPlayerInfo::InsidePutt(n) => numbered_name("p", n, "c1x"),
        }
    }

    fn data_extension(&self) -> (r: &'static str) {
        match *self {
            VMixPlayerInfo::ScoreColor { .. } => "Fill.Color",
            VMixPlayerInfo::PositionArrow(_) | VMixPlayerInfo::HotRound(_) => "Source",
            _ => "Text",
        }
    }

    fn value(&self) -> (r: Option<String>) {
        None
    }

    fn input_id(&self) -> (r: &'static str) {
        PLAYER_INFO_INPUT
    }
}

/// A scorecard field shown on the current-player title.
#[derive(Clone, Copy, Debug, PartialEq, Eq, Structural)]
pub struct CurrentPlayer(pub VMixPlayerInfo);

/// The id of the current-player title.
pub const CURRENT_PLAYER_INPUT: &'static str = "03a31701-8b74-46f9-a9e0-9e263d7ba0be";

impl VMixSelectionTrait for CurrentPlayer {
    open spec fn selection_name(&self) -> Seq<char> {
        self.0.selection_name()
    }

    open spec fn extension(&self) -> Seq<char> {
        self.0.extension()
    }

    open spec fn value_text(&self) -> Option<Seq<char>> {
        self.0.value_text()
    }

    open spec fn input(&self) -> Seq<char> {
        CURRENT_PLAYER_INPUT@
    }

    open spec fn well_formed(&self) -> bool {
        self.0.well_formed()
    }

    fn get_selection_name(&self) -> (r: String) {
        self.0.get_selection_name()
    }

    fn data_extension(&self) -> (r: &'static str) {
        self.0.data_extension()
    }

    fn value(&self) -> (r: Option<String>) {
        self.0.value()
    }

    fn input_id(&self) -> (r: &'static str) {
        CURRENT_PLAYER_INPUT
    }
}

/// A field of the two-by-two player comparison title.
#[derive(Clone, Copy, Debug, PartialEq, Eq, Structural)]
pub enum Compare2x2 {
    Standard(VMixPlayerInfo),
    PlayerImage { index: usize },
}

/// The id of the comparison title.
pub const COMPARE_2X2_INPUT: &'static str = "a4f106c7-db2c-4aa8-895b-076ba55de8a7";

impl VMixSelectionTrait for Compare2x2 {
    open spec fn selection_name(&self) -> Seq<char> {
        match *self {
            Compare2x2::Standard(s) => s.selection_name(),
            Compare2x2::PlayerImage { index } => numbered("pimg"@, index as nat, ""@),
        }
    }

    open spec fn extension(&self) -> Seq<char> {
        match *self {
            Compare2x2::Standard(s) => s.extension(),
            Compare2x2::PlayerImage { .. } => "Source"@,
        }
    }

    open spec fn value_text(&self) -> Option<Seq<char>> {
        match *self {
            Compare2x2::Standard(s) => s.value_text(),
            Compare2x2::PlayerImage { .. } => None,
        }
    }

    open spec fn input(&self) -> Seq<char> {
        COMPARE_2X2_INPUT@
    }

    open spec fn well_formed(&self) -> bool {
        match *self {
            Compare2x2::Standard(s) => s.well_formed(),
            Compare2x2::PlayerImage { .. } => true,
        }
    }

    fn get_selection_name(&self) -> (r: String) {
        match self {
            Compare2x2::Standard(s) => s.get_selection_name(),
            Compare2x2::PlayerImage { index } => numbered_name("pimg", *index, ""),
        }
    }

    fn data_extension(&self) -> (r: &'static str) {
        match self {
            Compare2x2::Standard(s) => s.data_extension(),
            Compare2x2::PlayerImage { .. } => "Source",
        }
    }

    fn value(&self) -> (r: Option<String>) {
        match self {
            Compare2x2::Standard(s) => s.value(),
            Compare2x2::PlayerImage { .. } => None,
        }
    }

    fn input_id(&self) -> (r: &'static str) {
        COMPARE_2X2_INPUT
    }
}

/// A comparison field shown on the featured-card title.
#[derive(Clone, Copy, Debug, PartialEq, Eq, Structural)]
pub struct Featured(pub Compare2x2);

/// The id of the featured-card title.
pub const FEATURED_INPUT: &'static str = "2994000d-afe5-44fc-a2c1-fc0993de21da";

impl VMixSelectionTrait for Featured {
    open spec fn selection_name(&self) -> Seq<char> {
        self.0.selection_name()
    }

    open spec fn extension(&self) -> Seq<char> {
        self.0.extension()
    }

    open spec fn value_text(&self) -> Option<Seq<char>> {
        self.0.value_text()
    }

    open spec fn input(&self) -> Seq<char> {
        FEATURED_INPUT@
    }

    open spec fn well_formed(&self) -> bool {
        self.0.well_formed()
    }

    fn get_selection_name(&self) -> (r: String) {
        self.0.get_selection_name()
    }

    fn data_extension(&self) -> (r: &'static str) {
        self.0.data_extension()
    }

    fn value(&self) -> (r: Option<String>) {
        self.0.value()
    }

    fn input_id(&self) -> (r: &'static str) {
        FEATURED_INPUT
    }
}

/// The same player field with its player number replaced.
pub open spec fn with_player_index(info: VMixPlayerInfo, index: usize) -> VMixPlayerInfo {
    match info {
        VMixPlayerInfo::Score { hole, .. } => VMixPlayerInfo::Score { hole, player: index },
        VMixPlayerInfo::ScoreColor { hole, .. } => VMixPlayerInfo::ScoreColor { hole, player: index },
        VMixPlayerInfo::Name(_) => VMixPlayerInfo::Name(index),
        VMixPlayerInfo::Surname(_) => VMixPlayerInfo::Surname(index),
        VMixPlayerInfo::TotalScore(_) => VMixPlayerInfo::TotalScore(index),
        VMixPlayerInfo::RoundScore(_) => VMixPlayerInfo::RoundScore(index),
        VMixPlayerInfo::Throw(_) => VMixPlayerInfo::Throw(index),
        VMixPlayerInfo::PlayerPosition(_) => VMixPlayerInfo::PlayerPosition(index),
        VMixPlayerInfo::PositionArrow(_) => VMixPlayerInfo::PositionArrow(index),
        VMixPlayerInfo::PositionMove(_) => VMixPlayerInfo::PositionMove(index),
        VMixPlayerInfo::HotRound(_) => VMixPlayerInfo::HotRound(index),
        VMixPlayerInfo::InsidePutt(_) => VMixPlayerInfo::InsidePutt(index),
        VMixPlayerInfo::CircleHit(_) => VMixPlayerInfo::CircleHit(index),
    }
}

impl VMixInterfacer<VMixPlayerInfo> {
    /// The same call on the current-player title; score fields are not shown
    /// there, so a call on one of them (or on no field) gives `None`.
    pub fn into_current_player(self) -> (r: Option<VMixInterfacer<CurrentPlayer>>)
        ensures
            match self.input {
                Some(VMixPlayerInfo::Score { .. }) | Some(VMixPlayerInfo::ScoreColor { .. }) | None => r is None,
                Some(i) => r is Some && r->0.input == Some(CurrentPlayer(i))
                    && r->0.function == self.function && r->0.value_view() == self.value_view(),
            },
    {
        let input = match self.input {
            Some(VMixPlayerInfo::Score { .. }) => None,
            Some(VMixPlayerInfo::ScoreColor { .. }) => None,
            Some(i) => Some(i),
            None => None,
        };
        match input {
            Some(i) => Some(VMixInterfacer { input: Some(CurrentPlayer(i)), function: self.function, value: self.value }),
            None => None,
        }
    }

    /// The same call on the comparison title, for the player in slot `index`.
    pub fn into_compare_2x2_player(self, index: usize) -> (r: VMixInterfacer<Compare2x2>)
        ensures
            r.function == self.function,
            r.value_view() == self.value_view(),
            r.input == match self.input {
                Some(i) => Some(Compare2x2::Standard(with_player_index(i, index))),
                None => None,
            },
    {
        let input = match self.input {
            Some(i) => Some(Compare2x2::Standard(match i {
                VMixPlayerInfo::Score { hole, .. } => VMixPlayerInfo::Score { hole, player: index },
                VMixPlayerInfo::ScoreColor { hole, .. } => VMixPlayerInfo::ScoreColor { hole, player: index },
                VMixPlayerInfo::Name(_) => VMixPlayerInfo::Name(index),
                VMixPlayerInfo::Surname(_) => VMixPlayerInfo::Surname(index),
                VMixPlayerInfo::TotalScore(_) => VMixPlayerInfo::TotalScore(index),
                VMixPlayerInfo::RoundScore(_) => VMixPlayerInfo::RoundScore(index),
                VMixPlayerInfo::Throw(_) => VMixPlayerInfo::Throw(index),
                VMixPlayerInfo::PlayerPosition(_) => VMixPlayerInfo::PlayerPosition(index),
                VMixPlayerInfo::PositionArrow(_) => VMixPlayerInfo::PositionArrow(index),
                VMixPlayerInfo::PositionMove(_) => VMixPlayerInfo::PositionMove(index),
                VMixPlayerInfo::HotRound(_) => VMixPlayerInfo::HotRound(index),
                VMixPlayerInfo::InsidePutt(_) => VMixPlayerInfo::InsidePutt(index),
                VMixPlayerInfo::CircleHit(_) => VMixPlayerInfo::CircleHit(index),
            })),
            None => None,
        };
        VMixInterfacer { input, function: self.function, value: self.value }
    }
}

impl VMixInterfacer<Compare2x2> {
    /// The same call on the featured-card title.
    pub fn into_featured(self) -> (r: VMixInterfacer<Featured>)
        ensures
            r.function == self.function,
            r.value_view() == self.value_view(),
            r.input == match self.input {
                Some(i) => Some(Featured(i)),
                None => None,
            },
    {
        let input = match self.input {
            Some(i) => Some(Featured(i)),
            None => None,
        };
        VMixInterfacer { function: self.function, value: self.value, input }
    }
}

impl<InputEnum: VMixSelectionTrait + Copy> VMixInterfacer<InputEnum> {
    /// A copy of the call.
    pub fn duplicate(&self) -> (r: Self)
        ensures
            r.parts() == self.parts(),
    {
        VMixInterfacer { value: clone_opt(&self.value), input: self.input, function: self.function }
    }
}

} // verus!
