//! The first vMix interface of the controller: fields addressed by their
//! selection text, and the calls made on them.
use vstd::prelude::*;

use crate::text::{fix_score, join2, nat_to_dec, score_text, succ_to_string, usize_to_string};

verus! {

/// A field of a vMix title, addressed by its selection text.
pub trait VMixSelectionTrait: Sized {
    /// The selection text of the field.
    spec fn selection(&self) -> Seq<char>;

    /// The id of the title that holds the field.
    spec fn id(&self) -> Seq<char>;

    fn get_selection(&self) -> (r: String)
        ensures
            r@ == self.selection(),
    ;

    fn get_id(&self) -> (r: &'static str)
        ensures
            r@ == self.id(),
    ;
}

/// A selected field.
#[derive(Clone, Debug)]
pub struct VMixSelection<T: VMixSelectionTrait>(pub T);

impl<T: VMixSelectionTrait> VMixSelection<T> {
    fn get_selection(&self) -> (r: String)
        ensures
            r@ == self.0.selection(),
    {
        self.0.get_selection()
    }
}

impl VMixSelection<LeaderBoardProperty> {
    /// The selection of a leaderboard field.
    pub fn from(prop: LeaderBoardProperty) -> (r: Self)
        ensures
            r.0 == prop,
    {
        VMixSelection(prop)
    }
}

impl VMixSelection<VmixProperty> {
    /// The selection of a scorecard field.
    pub fn from_property(prop: VmixProperty) -> (r: Self)
        ensures
            r.0 == prop,
    {
        VMixSelection(prop)
    }
}

/// The title of the first interface.
pub const LEGACY_INPUT: &'static str = "0e76d38f-6e8d-4f7d-b1a6-e76f695f2094";

/// A field of the leaderboard title of the first interface.
#[derive(Clone, Copy, Debug, PartialEq, Eq, Structural)]
pub enum LeaderBoardProperty {
    Position { pos: u16, lb_pos: u16, tied: bool },
    Name(u16),
    HotRound(u16),
    RoundScore(u16),
    TotalScore { pos: u16 },
    Move { pos: u16 },
    Arrow { pos: u16 },
    Thru(u16),
    CheckinText,
    TotalScoreTitle,
}

/// `SelectedName=<prefix><n><suffix>`.
pub open spec fn selected(prefix: Seq<char>, n: nat, suffix: Seq<char>) -> Seq<char> {
    "SelectedName="@ + prefix + nat_to_dec(n) + suffix
}

fn selected_text(prefix: &str, n: usize, suffix: &str) -> (r: String)
    ensures
        r@ == selected(prefix@, n as nat, suffix@),
{
    let mut s = String::from_str("SelectedName=");
    s.append(prefix);
    s.append(usize_to_string(n).as_str());
    s.append(suffix);
    s
}

fn selected_next(prefix: &str, n: usize, suffix: &str) -> (r: String)
    ensures
        r@ == selected(prefix@, (n + 1) as nat, suffix@),
{
    let mut s = String::from_str("SelectedName=");
    s.append(prefix);
    s.append(succ_to_string(n).as_str());
    s.append(suffix);
    s
}

impl VMixSelectionTrait for LeaderBoardProperty {
    open spec fn selection(&self) -> Seq<char> {
        match *self {
            LeaderBoardProperty::Position { pos, lb_pos, tied } => selected("pos#"@, pos as nat, ".Text&Value="@) + if tied && lb_pos != 0 {
                "T"@ + nat_to_dec(lb_pos as nat)
            } else if lb_pos != 0 {
                nat_to_dec(lb_pos as nat)
            } else {
                Seq::<char>::empty()
            },
            LeaderBoardProperty::Name(pos) => selected("name#"@, pos as nat, ".Text"@),
            LeaderBoardProperty::HotRound(pos) => selected("hrp"@, pos as nat, ".Source"@),
            LeaderBoardProperty::RoundScore(pos) => selected("rs#"@, pos as nat, ".Text"@),
            LeaderBoardProperty::TotalScore { pos } => selected("ts#"@, pos as nat, ".Text"@),
            LeaderBoardProperty::TotalScoreTitle => "SelectedName=ts.Text"@,
            LeaderBoardProperty::Move { pos } => selected("move"@, pos as nat, ".Text"@),
            LeaderBoardProperty::Arrow { pos } => selected("arw"@, pos as nat, ".Source"@),
            LeaderBoardProperty::Thru(pos) => selected("thru#"@, pos as nat, ".Text"@),
            LeaderBoardProperty::CheckinText => "SelectedName=checkintext.Text"@,
        }
    }

    open spec fn id(&self) -> Seq<char> {
        LEGACY_INPUT@
    }

    fn get_selection(&self) -> (r: String) {
        match *self {
            LeaderBoardProperty::Position { pos, lb_pos, tied } => {
                let mut s = selected_text("pos#", pos as usize, ".Text&Value=");
                if tied && lb_pos != 0 {
                    s.append("T");
                    s.append(usize_to_string(lb_pos as usize).as_str());
                } else if lb_pos != 0 {
                    s.append(usize_to_string(lb_pos as usize).as_str());
                }
                s
            },
            LeaderBoardProperty::Name(pos) => selected_text("name#", pos as usize, ".Text"),
            LeaderBoardProperty::HotRound(pos) => selected_text("hrp", pos as usize, ".Source"),
            LeaderBoardProperty::RoundScore(pos) => selected_text("rs#", pos as usize, ".Text"),
            LeaderBoardProperty::TotalScore { pos } => selected_text("ts#", pos as usize, ".Text"),
            LeaderBoardProperty::TotalScoreTitle => String::from_str("SelectedName=ts.Text"),
            LeaderBoardProperty::Move { pos } => selected_text("move", pos as usize, ".Text"),
            LeaderBoardProperty::Arrow { pos } => selected_text("arw", pos as usize, ".Source"),
            LeaderBoardProperty::Thru(pos) => selected_text("thru#", pos as usize, ".Text"),
            LeaderBoardProperty::CheckinText => String::from_str("SelectedName=checkintext.Text"),
        }
    }

    fn get_id(&self) -> (r: &'static str) {
        LEGACY_INPUT
    }
}

/// A field of the scorecard title of the first interface.
#[derive(Clone, Debug)]
pub enum VmixProperty {
    Score(usize, usize),
    HoleNumber(usize, usize),
    ScoreColor(usize, usize),
    PosRightTriColor(usize),
    PosSquareColor(usize),
    Name(usize),
    Surname(usize),
    TotalScore(usize),
    RoundScore(usize),
    Throw(usize),
    Mov(String),
    PlayerPosition(u16),
    HoleMeters,
    HoleFeet,
    HolePar,
    Hole,
}

impl VMixSelectionTrait for VmixProperty {
    open spec fn selection(&self) -> Seq<char> {
        match *self {
            VmixProperty::Score(v1, v2) => selected("s"@, v1 as nat, "p"@) + nat_to_dec((v2 + 1) as nat) + ".Text"@,
            VmixProperty::HoleNumber(v1, v2) => selected("HN"@, v1 as nat, "p"@) + nat_to_dec((v2 + 1) as nat) + ".Text"@,
            VmixProperty::ScoreColor(v1, v2) => selected("h"@, v1 as nat, "p"@) + nat_to_dec((v2 + 1) as nat) + ".Fill.Color"@,
            VmixProperty::PosRightTriColor(v1) => selected("rghtri"@, (v1 + 1) as nat, ".Fill.Color"@),
            VmixProperty::PosSquareColor(v1) => selected("rekt"@, (v1 + 1) as nat, ".Fill.Color"@),
            VmixProperty::Name(ind) => selected("namep"@, (ind + 1) as nat, ".Text"@),
            VmixProperty::Surname(ind) => selected("surnamep"@, (ind + 1) as nat, ".Text"@),
            VmixProperty::TotalScore(ind) => selected("scoretotp"@, (ind + 1) as nat, ".Text"@),
            VmixProperty::RoundScore(ind) => selected("scorerndp"@, (ind + 1) as nat, ".Text"@),
            VmixProperty::Throw(ind) => selected("t#p"@, (ind + 1) as nat, ".Text"@),
            VmixProperty::Mov(id) => "SelectedName="@ + id@,
            VmixProperty::PlayerPosition(pos) => selected("posp"@, (pos + 1) as nat, ".Text"@),
            VmixProperty::HoleMeters => "SelectedName=meternr.Text"@,
            VmixProperty::HoleFeet => "SelectedName=feetnr.Text"@,
            VmixProperty::HolePar => "SelectedName=parnr.Text"@,
            VmixProperty::Hole => "SelectedName=hole.Text"@,
        }
    }

    open spec fn id(&self) -> Seq<char> {
        LEGACY_INPUT@
    }

    fn get_selection(&self) -> (r: String) {
        match self {
            VmixProperty::Score(v1, v2) => {
                let mut s = selected_text("s", *v1, "p");
                s.append(succ_to_string(*v2).as_str());
                s.append(".Text");
                s
            },
            VmixProperty::HoleNumber(v1, v2) => {
                let mut s = selected_text("HN", *v1, "p");
                s.append(succ_to_string(*v2).as_str());
                s.append(".Text");
                s
            },
            VmixProperty::ScoreColor(v1, v2) => {
                let mut s = selected_text("h", *v1, "p");
                s.append(succ_to_string(*v2).as_str());
                s.append(".Fill.Color");
                s
            },
            VmixProperty::PosRightTriColor(v1) => selected_next("rghtri", *v1, ".Fill.Color"),
            VmixProperty::PosSquareColor(v1) => selected_next("rekt", *v1, ".Fill.Color"),
            VmixProperty::Name(ind) => selected_next("namep", *ind, ".Text"),
            VmixProperty::Surname(ind) => selected_next("surnamep", *ind, ".Text"),
            VmixProperty::TotalScore(ind) => selected_next("scoretotp", *ind, ".Text"),
            VmixProperty::RoundScore(ind) => selected_next("scorerndp", *ind, ".Text"),
            VmixProperty::Throw(ind) => selected_next("t#p", *ind, ".Text"),
            VmixProperty::Mov(id) => join2("SelectedName=", id.as_str()),
            VmixProperty::PlayerPosition(pos) => selected_next("posp", *pos as usize, ".Text"),
            VmixProperty::HoleMeters => String::from_str("SelectedName=meternr.Text"),
            VmixProperty::HoleFeet => String::from_str("SelectedName=feetnr.Text"),
            VmixProperty::HolePar => String::from_str("SelectedName=parnr.Text"),
            VmixProperty::Hole => String::from_str("SelectedName=hole.Text"),
        }
    }

    fn get_id(&self) -> (r: &'static str) {
        LEGACY_INPUT
    }
}

/// A call of the first interface on a field.
pub enum VMixFunction<InputEnum: VMixSelectionTrait> {
    SetText { value: String, input: VMixSelection<InputEnum> },
    /// The horizontal pan of an input, as the text that is sent.
    SetPanX { value: String, input: VMixSelection<InputEnum> },
    SetColor { color: String, input: VMixSelection<InputEnum> },
    SetTextVisibleOn { input: VMixSelection<InputEnum> },
    SetTextVisibleOff { input: VMixSelection<InputEnum> },
    SetImage { value: String, input: VMixSelection<InputEnum> },
    OverlayInput4Off,
    OverlayInput4(String),
}

impl<InputEnum: VMixSelectionTrait> VMixFunction<InputEnum> {
    /// The input part of the call: the selection of its field, or the clip.
    pub open spec fn input_text(&self) -> Option<Seq<char>> {
        match self {
            VMixFunction::SetText { input, .. } | VMixFunction::SetColor { input, .. } | VMixFunction::SetImage { input, .. }
            | VMixFunction::SetPanX { input, .. } | VMixFunction::SetTextVisibleOn { input }
            | VMixFunction::SetTextVisibleOff { input } => Some(input.0.selection()),
            VMixFunction::OverlayInput4(mov) => Some(mov@),
            VMixFunction::OverlayInput4Off => None,
        }
    }

    /// The value part of the call, with `Value=` in front.
    pub open spec fn value_text(&self) -> Option<Seq<char>> {
        match self {
            VMixFunction::SetText { value, .. } | VMixFunction::SetImage { value, .. }
            | VMixFunction::SetPanX { value, .. } => Some("Value="@ + value@),
            VMixFunction::SetColor { color, .. } => Some("Value=#"@ + color@),
            _ => None,
        }
    }

    /// The name of the function.
    pub open spec fn start_text(&self) -> Seq<char> {
        match self {
            VMixFunction::SetText { .. } => "SetText"@,
            VMixFunction::SetColor { .. } => "SetColor"@,
            VMixFunction::SetPanX { .. } => "SetPanX"@,
            VMixFunction::SetTextVisibleOn { .. } => "SetTextVisibleOn"@,
            VMixFunction::SetTextVisibleOff { .. } => "SetTextVisibleOff"@,
            VMixFunction::SetImage { .. } => "SetImage"@,
            VMixFunction::OverlayInput4Off => "OverlayInput4Off"@,
            VMixFunction::OverlayInput4(_) => "OverlayInput4"@,
        }
    }

    /// The command line of the call.
    pub open spec fn cmd(&self) -> Seq<char> {
        let cmd = "FUNCTION "@ + self.start_text();
        match (self.input_text(), self.value_text()) {
            (Some(i), Some(v)) => cmd + " Input="@ + i + "&Value="@ + v,
            (Some(i), None) => cmd + " Input="@ + i,
            (None, Some(v)) => cmd + " Value="@ + v,
            (None, None) => cmd,
        }
    }

    fn get_input(&self) -> (r: Option<String>)
        ensures
            crate::text::opt_view(r) == self.input_text(),
    {
        match self {
            VMixFunction::SetText { input, .. } => Some(input.get_selection()),
            VMixFunction::SetColor { input, .. } => Some(input.get_selection()),
            VMixFunction::OverlayInput4(mov) => Some(mov.clone()),
            VMixFunction::OverlayInput4Off => None,
            VMixFunction::SetImage { input, .. } => Some(input.get_selection()),
            VMixFunction::SetPanX { input, .. } => Some(input.get_selection()),
            VMixFunction::SetTextVisibleOn { input } => Some(input.get_selection()),
            VMixFunction::SetTextVisibleOff { input } => Some(input.get_selection()),
        }
    }

    fn get_value(&self) -> (r: Option<String>)
        ensures
            crate::text::opt_view(r) == self.value_text(),
    {
        match self {
            VMixFunction::SetText { value, .. } => Some(join2("Value=", value.as_str())),
            VMixFunction::SetColor { color, .. } => Some(join2("Value=#", color.as_str())),
            VMixFunction::SetImage { value, .. } => Some(join2("Value=", value.as_str())),
            VMixFunction::SetPanX { value, .. } => Some(join2("Value=", value.as_str())),
            _ => None,
        }
    }

    fn get_start_cmd(&self) -> (r: &'static str)
        ensures
            r@ == self.start_text(),
    {
        match self {
            VMixFunction::SetText { .. } => "SetText",
            VMixFunction::SetColor { .. } => "SetColor",
            VMixFunction::SetPanX { .. } => "SetPanX",
            VMixFunction::SetTextVisibleOn { .. } => "SetTextVisibleOn",
            VMixFunction::SetTextVisibleOff { .. } => "SetTextVisibleOff",
            VMixFunction::SetImage { .. } => "SetImage",
            VMixFunction::OverlayInput4Off => "OverlayInput4Off",
            VMixFunction::OverlayInput4(_) => "OverlayInput4",
        }
    }

    /// The command line of the call (see `cmd`).
    pub fn to_cmd(&self) -> (r: String)
        ensures
            r@ == self.cmd(),
    {
        let cmd = join2("FUNCTION ", self.get_start_cmd());
        let input = self.get_input();
        let value = self.get_value();
        match (input, value) {
            (Some(input), Some(value)) => {
                let mut s = cmd;
                s.append(" Input=");
                s.append(input.as_str());
                s.append("&Value=");
                s.append(value.as_str());
                s
            },
            (Some(input), None) => {
                let mut s = cmd;
                s.append(" Input=");
                s.append(input.as_str());
                s
            },
            (None, Some(value)) => {
                let mut s = cmd;
                s.append(" Value=");
                s.append(value.as_str());
                s
            },
            (None, None) => cmd,
        }
    }
}

/// The scores of a player on the scorecard of the first interface.
pub struct OverarchingScore {
    round: usize,
    round_score: isize,
    player: usize,
    total_score: isize,
}

/// The round score as calls: shown with its text, or hidden.
pub enum RoundScore {
    Shown([VMixFunction<VmixProperty>; 2]),
    Hidden(VMixFunction<VmixProperty>),
}

impl OverarchingScore {
    pub closed spec fn view_parts(self) -> (usize, isize, usize, isize) {
        (self.round, self.round_score, self.player, self.total_score)
    }

    pub fn new(round: usize, round_score: isize, player: usize, total_score: isize) -> (r: Self)
        ensures
            r.view_parts() == (round, round_score, player, total_score),
    {
        OverarchingScore { round, round_score, player, total_score }
    }

    /// After the first round, the round score in brackets, shown; in it, the
    /// round score hidden.
    pub fn set_round_score(&self) -> (r: RoundScore)
        ensures
            self.view_parts().0 > 0 ==> (r matches RoundScore::Shown(calls) && calls[0].cmd() == "FUNCTION "@ + "SetText"@ + " Input="@
                + selected("scorerndp"@, (self.view_parts().2 + 1) as nat, ".Text"@) + "&Value="@ + ("Value="@ + ("("@ + score_text(self.view_parts().1 as int) + ")"@))
                && calls[1].cmd() == "FUNCTION "@ + "SetTextVisibleOn"@ + " Input="@ + selected("scorerndp"@, (self.view_parts().2 + 1) as nat, ".Text"@)),
            self.view_parts().0 == 0 ==> (r matches RoundScore::Hidden(call)
                && call.cmd() == "FUNCTION "@ + "SetTextVisibleOff"@ + " Input="@ + selected("scorerndp"@, (self.view_parts().2 + 1) as nat, ".Text"@)),
    {
        if self.round > 0 {
            let text = join2("(", fix_score(self.round_score).as_str()).concat(")");
            RoundScore::Shown([
                VMixFunction::SetText { value: text, input: VMixSelection::from_property(VmixProperty::RoundScore(self.player)) },
                self.show_round_score(),
            ])
        } else {
            RoundScore::Hidden(self.hide_round_score())
        }
    }

    fn hide_round_score(&self) -> (r: VMixFunction<VmixProperty>)
        ensures
            r.cmd() == "FUNCTION "@ + "SetTextVisibleOff"@ + " Input="@ + selected("scorerndp"@, (self.view_parts().2 + 1) as nat, ".Text"@),
    {
        VMixFunction::SetTextVisibleOff { input: VMixSelection::from_property(VmixProperty::RoundScore(self.player)) }
    }

    fn show_round_score(&self) -> (r: VMixFunction<VmixProperty>)
        ensures
            r.cmd() == "FUNCTION "@ + "SetTextVisibleOn"@ + " Input="@ + selected("scorerndp"@, (self.view_parts().2 + 1) as nat, ".Text"@),
    {
        VMixFunction::SetTextVisibleOn { input: VMixSelection::from_property(VmixProperty::RoundScore(self.player)) }
    }

    /// The total score.
    pub fn set_total_score(&self) -> (r: VMixFunction<VmixProperty>)
        ensures
            r.cmd() == "FUNCTION "@ + "SetText"@ + " Input="@ + selected("scoretotp"@, (self.view_parts().2 + 1) as nat, ".Text"@)
                + "&Value="@ + ("Value="@ + score_text(self.view_parts().3 as int)),
    {
        VMixFunction::SetText {
            value: fix_score(self.total_score),
            input: VMixSelection::from_property(VmixProperty::TotalScore(self.player)),
        }
    }
}

/// A text field of a title of the very first interface, driven over HTTP.
pub struct Text {
    pub id: String,
    pub name: String,
    pub text: String,
    pub ip: String,
}

impl Text {
    /// The address of the vMix web API.
    pub fn base_url(&self) -> (r: String)
        ensures
            r@ == "http://"@ + self.ip@ + ":8088/api/?"@,
    {
        join2("http://", self.ip.as_str()).concat(":8088/api/?")
    }

    /// The selection of the field.
    pub fn default_select(&self) -> (r: String)
        ensures
            r@ == "Input="@ + self.id@ + "&SelectedName="@ + self.name@,
    {
        let mut s = join2("Input=", self.id.as_str());
        s.append("&SelectedName=");
        s.append(self.name.as_str());
        s
    }

    /// Names the field `<pre_name><iteration>p4.Text`.
    pub fn name_format(&mut self, iteration: u8, pre_name: &str)
        ensures
            final(self).name@ == pre_name@ + nat_to_dec(iteration as nat) + "p4.Text"@,
            final(self).id@ == old(self).id@,
            final(self).text@ == old(self).text@,
            final(self).ip@ == old(self).ip@,
    {
        let mut s = String::from_str(pre_name);
        s.append(usize_to_string(iteration as usize).as_str());
        s.append("p4.Text");
        self.name = s;
    }

    /// Sets the text of the field.
    pub fn set_text(&mut self, text: &str)
        ensures
            final(self).text@ == text@,
            final(self).id@ == old(self).id@,
            final(self).name@ == old(self).name@,
            final(self).ip@ == old(self).ip@,
    {
        self.text = String::from_str(text);
    }

    /// Toggles the visibility of the field; the field keeps its state here.
    pub fn toggle_visibility(&mut self)
        ensures
            final(self).id@ == old(self).id@,
            final(self).name@ == old(self).name@,
            final(self).text@ == old(self).text@,
            final(self).ip@ == old(self).ip@,
    {
    }
}

} // verus!
