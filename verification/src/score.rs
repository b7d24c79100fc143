//! Scores on a hole: their names, colours and animations, and the score
//! fields of the scorecard title.
use vstd::prelude::*;

use crate::text::{fix_score, join2, score_text};
use crate::vmix::{VMixFunction, VMixInterfacer, VMixPlayerInfo};

verus! {

/// How far over par a bogey is.
#[derive(Clone, Copy, Debug, PartialEq, Eq, Structural)]
pub enum BogeyType {
    Single,
    Double,
    Triple,
    Ouch,
}

impl BogeyType {
    pub open spec fn spec_new(score: u8) -> BogeyType {
        if score == 1 {
            BogeyType::Single
        } else if score == 2 {
            BogeyType::Double
        } else if score == 3 {
            BogeyType::Triple
        } else {
            BogeyType::Ouch
        }
    }

    pub fn new(score: u8) -> (r: Self)
        ensures
            r == Self::spec_new(score),
    {
        match score {
            1 => Self::Single,
            2 => Self::Double,
            3 => Self::Triple,
            _ => Self::Ouch,
        }
    }
}

/// The name of a score on a hole.
#[derive(Clone, Copy, Debug, PartialEq, Eq, Structural)]
pub enum ReadableScore {
    Bogey(BogeyType),
    Par,
    Birdie,
    Eagle,
    Albatross,
    Ace,
}

impl ReadableScore {
    /// The name of a score of `throws` on a hole of par `par`: three under par
    /// in one throw is an ace, and anything further under par is an ace too.
    pub open spec fn spec_new(throws: i8, par: i8) -> ReadableScore {
        let score = throws - par;
        if score == 0 {
            ReadableScore::Par
        } else if score == -1 {
            ReadableScore::Birdie
        } else if score == -2 {
            ReadableScore::Eagle
        } else if score == -3 && throws == 1 {
            ReadableScore::Ace
        } else if score == -3 {
            ReadableScore::Albatross
        } else if score < -3 {
            ReadableScore::Ace
        } else {
            ReadableScore::Bogey(BogeyType::spec_new(score as u8))
        }
    }

    pub fn new(throws: i8, par: i8) -> (r: Self)
        requires
            i8::MIN <= throws - par <= i8::MAX,
        ensures
            r == Self::spec_new(throws, par),
    {
        let score = throws - par;
        if score == 0 {
            Self::Par
        } else if score == -1 {
            Self::Birdie
        } else if score == -2 {
            Self::Eagle
        } else if score == -3 && throws == 1 {
            Self::Ace
        } else if score == -3 {
            Self::Albatross
        } else if score < -3 {
            Self::Ace
        } else {
            Self::Bogey(BogeyType::new(score as u8))
        }
    }

    /// A score is named by how far it is from par: level is par, one under a
    /// birdie, two under an eagle, three under an albatross (an ace when
    /// holed in one), further under an ace; one, two and three over are
    /// single, double and triple bogeys, further over an "ouch". The colour
    /// and clip follow the name: an eagle is blue, "02 eagle.mov".
    pub proof fn lemma_named_by_distance_to_par(throws: i8, par: i8)
        ensures
            throws - par == 0 ==> Self::spec_new(throws, par) == ReadableScore::Par,
            throws - par == -1 ==> Self::spec_new(throws, par) == ReadableScore::Birdie,
            throws - par == -2 ==> Self::spec_new(throws, par) == ReadableScore::Eagle
                && Self::spec_new(throws, par).colour() == "6A8BE7FF"@
                && Self::spec_new(throws, par).mov() == "02 eagle.mov"@,
            throws - par == -3 && throws != 1 ==> Self::spec_new(throws, par) == ReadableScore::Albatross,
            throws - par <= -3 && throws == 1 ==> Self::spec_new(throws, par) == ReadableScore::Ace,
            throws - par < -3 ==> Self::spec_new(throws, par) == ReadableScore::Ace,
            throws - par == 1 ==> Self::spec_new(throws, par) == ReadableScore::Bogey(BogeyType::Single),
            throws - par == 2 ==> Self::spec_new(throws, par) == ReadableScore::Bogey(BogeyType::Double),
            throws - par == 3 ==> Self::spec_new(throws, par) == ReadableScore::Bogey(BogeyType::Triple),
            throws - par > 3 ==> Self::spec_new(throws, par) == ReadableScore::Bogey(BogeyType::Ouch),
    {
        if throws - par > 0 && throws - par <= 127 {
            assert((throws - par) as u8 == throws - par);
        }
    }

    /// The fill colour of a score.
    pub open spec fn colour(self) -> Seq<char> {
        match self {
            ReadableScore::Bogey(BogeyType::Triple) | ReadableScore::Bogey(BogeyType::Ouch) => "AB8E77FF"@,
            ReadableScore::Bogey(BogeyType::Double) => "CA988DFF"@,
            ReadableScore::Bogey(BogeyType::Single) => "EC928FFF"@,
            ReadableScore::Par => "7E8490FF"@,
            ReadableScore::Birdie => "A6F8BBFF"@,
            ReadableScore::Eagle => "6A8BE7FF"@,
            ReadableScore::Ace | ReadableScore::Albatross => "DD6AC9FF"@,
        }
    }

    pub fn to_colour(&self) -> (r: &'static str)
        ensures
            r@ == self.colour(),
    {
        match self {
            ReadableScore::Bogey(bogey_type) => match bogey_type {
                BogeyType::Triple | BogeyType::Ouch => "AB8E77FF",
                BogeyType::Double => "CA988DFF",
                BogeyType::Single => "EC928FFF",
            },
            ReadableScore::Par => "7E8490FF",
            ReadableScore::Birdie => "A6F8BBFF",
            ReadableScore::Eagle => "6A8BE7FF",
            ReadableScore::Ace | ReadableScore::Albatross => "DD6AC9FF",
        }
    }

    /// The animation clip of a score.
    pub open spec fn mov(self) -> Seq<char> {
        match self {
            ReadableScore::Bogey(BogeyType::Ouch) => "40 ouch.mov"@,
            ReadableScore::Bogey(BogeyType::Triple) => "30 3xBogey.mov"@,
            ReadableScore::Bogey(BogeyType::Double) => "20 2xBogey.mov"@,
            ReadableScore::Bogey(BogeyType::Single) => "10 bogey.mov"@,
            ReadableScore::Par => "04 par.mov"@,
            ReadableScore::Birdie => "03 birdie.mov"@,
            ReadableScore::Eagle => "02 eagle.mov"@,
            ReadableScore::Albatross => "01 albatross.mov"@,
            ReadableScore::Ace => "00 ace.mov"@,
        }
    }

    pub fn to_mov(&self) -> (r: &'static str)
        ensures
            r@ == self.mov(),
    {
        match self {
            ReadableScore::Bogey(bogey_type) => match bogey_type {
                BogeyType::Ouch => "40 ouch.mov",
                BogeyType::Triple => "30 3xBogey.mov",
                BogeyType::Double => "20 2xBogey.mov",
                BogeyType::Single => "10 bogey.mov",
            },
            ReadableScore::Par => "04 par.mov",
            ReadableScore::Birdie => "03 birdie.mov",
            ReadableScore::Eagle => "02 eagle.mov",
            ReadableScore::Albatross => "01 albatross.mov",
            ReadableScore::Ace => "00 ace.mov",
        }
    }
}

/// The result of one player on one hole.
#[derive(Clone, Copy, Debug)]
pub struct Score {
    throws: i8,
    readable_score: ReadableScore,
    par: i8,
    hole: u8,
}

impl Score {
    #[verifier::type_invariant]
    spec fn inv(self) -> bool {
        &&& i8::MIN <= self.throws - self.par <= i8::MAX
        &&& self.readable_score == ReadableScore::spec_new(self.throws, self.par)
    }

    pub closed spec fn throws_of(self) -> i8 {
        self.throws
    }

    pub closed spec fn par_of(self) -> i8 {
        self.par
    }

    pub closed spec fn hole_of(self) -> u8 {
        self.hole
    }

    /// The score relative to par.
    pub open spec fn relative(self) -> int {
        self.throws_of() - self.par_of()
    }

    /// The name of the score.
    pub open spec fn readable(self) -> ReadableScore {
        ReadableScore::spec_new(self.throws_of(), self.par_of())
    }

    pub fn new(throws: i8, par: i8, hole: u8) -> (r: Self)
        requires
            i8::MIN <= throws - par <= i8::MAX,
        ensures
            r.throws_of() == throws,
            r.par_of() == par,
            r.hole_of() == hole,
    {
        Self { throws, par, readable_score: ReadableScore::new(throws, par), hole }
    }

    pub fn par_score(&self) -> (r: i8)
        ensures
            r == self.relative(),
    {
        proof {
            use_type_invariant(self);
        }
        self.throws - self.par
    }

    pub fn update_score_colour(&self, player: usize) -> (r: VMixInterfacer<VMixPlayerInfo>)
        ensures
            r.function == VMixFunction::SetColor,
            r.value_view() == Some("#"@ + self.readable().colour()),
            r.input == Some(VMixPlayerInfo::ScoreColor { hole: self.hole_of() as usize, player }),
    {
        proof {
            use_type_invariant(self);
        }
        VMixInterfacer::set_color(
            self.readable_score.to_colour(),
            VMixPlayerInfo::ScoreColor { hole: self.hole as usize, player },
        )
    }

    pub fn get_score_colour(&self) -> (r: &'static str)
        ensures
            r@ == self.readable().colour(),
    {
        proof {
            use_type_invariant(self);
        }
        self.readable_score.to_colour()
    }

    /// Sets the score text, shows it and colours it.
    pub fn update_score(&self, player: usize) -> (r: Vec<VMixInterfacer<VMixPlayerInfo>>)
        ensures
            r@.len() == 3,
            r@[0].function == VMixFunction::SetText,
            r@[0].value_view() == Some(score_text(self.relative())),
            r@[0].input == Some(VMixPlayerInfo::Score { hole: self.hole_of() as usize, player }),
            r@[1].function == VMixFunction::SetTextVisibleOn,
            r@[1].value is None,
            r@[1].input == Some(VMixPlayerInfo::Score { hole: self.hole_of() as usize, player }),
            r@[2].function == VMixFunction::SetColor,
            r@[2].value_view() == Some("#"@ + self.readable().colour()),
            r@[2].input == Some(VMixPlayerInfo::ScoreColor { hole: self.hole_of() as usize, player }),
    {
        let mut v = Vec::new();
        v.push(self.update_total_score_text(player));
        v.push(self.show_score(player));
        v.push(self.update_score_colour(player));
        v
    }

    /// The score text: `E` for par, `%2B<n>` over par, `-<n>` under par.
    pub fn get_score_text(&self) -> (r: String)
        ensures
            r@ == score_text(self.relative()),
    {
        let score = self.par_score();
        fix_score(score as isize)
    }

    fn update_total_score_text(&self, player: usize) -> (r: VMixInterfacer<VMixPlayerInfo>)
        ensures
            r.function == VMixFunction::SetText,
            r.value_view() == Some(score_text(self.relative())),
            r.input == Some(VMixPlayerInfo::Score { hole: self.hole_of() as usize, player }),
    {
        VMixInterfacer::set_text(
            self.get_score_text(),
            VMixPlayerInfo::Score { hole: self.hole as usize, player },
        )
    }

    fn show_score(&self, player: usize) -> (r: VMixInterfacer<VMixPlayerInfo>)
        ensures
            r.function == VMixFunction::SetTextVisibleOn,
            r.value is None,
            r.input == Some(VMixPlayerInfo::Score { hole: self.hole_of() as usize, player }),
    {
        VMixInterfacer::set_text_visible_on(VMixPlayerInfo::Score { hole: self.hole as usize, player })
    }

    /// Stops the running clip and plays the clip of this score (or the
    /// out-of-bounds clip).
    pub fn play_mov_vmix(&self, player: usize, ob: bool) -> (r: [VMixInterfacer<VMixPlayerInfo>; 2])
        ensures
            r[0].function == VMixFunction::OverlayInput4Off,
            r[0].value is None,
            r[0].input is None,
            r[1].function == VMixFunction::OverlayInput4,
            r[1].input is None,
            r[1].value_view() == Some(if ob { "50 ob.mov"@ } else { self.readable().mov() }),
    {
        [Self::stop_previous_mov(), self.to_vmix_mov(ob)]
    }

    fn stop_previous_mov() -> (r: VMixInterfacer<VMixPlayerInfo>)
        ensures
            r.function == VMixFunction::OverlayInput4Off,
            r.value is None,
            r.input is None,
    {
        VMixInterfacer::overlay_input_4_off()
    }

    fn to_vmix_mov(&self, ob: bool) -> (r: VMixInterfacer<VMixPlayerInfo>)
        ensures
            r.function == VMixFunction::OverlayInput4,
            r.input is None,
            r.value_view() == Some(if ob { "50 ob.mov"@ } else { self.readable().mov() }),
    {
        proof {
            use_type_invariant(self);
        }
        if ob {
            VMixInterfacer::overlay_input_4("50 ob.mov")
        } else {
            VMixInterfacer::overlay_input_4(self.readable_score.to_mov())
        }
    }
}

/// The score of a player so far in the round and in the whole event.
#[derive(Clone, Copy, Debug)]
pub struct OverarchingScore {
    pub round: usize,
    pub round_score: isize,
    pub player: usize,
    pub total_score: isize,
}

/// The round score as commands: shown with its text, or hidden.
pub enum RoundScore {
    Shown([VMixInterfacer<VMixPlayerInfo>; 2]),
    Hidden(VMixInterfacer<VMixPlayerInfo>),
}

impl OverarchingScore {
    pub fn new(round: usize, round_score: isize, player: usize, total_score: isize) -> (r: Self)
        ensures
            r.round == round,
            r.round_score == round_score,
            r.player == player,
            r.total_score == total_score,
    {
        Self { round, round_score, player, total_score }
    }

    /// In the first round the round score is hidden; later it is shown as
    /// `(<score>)`.
    pub fn set_round_score(&self) -> (r: Vec<VMixInterfacer<VMixPlayerInfo>>)
        ensures
            self.round > 0 ==> r@.len() == 2
                && r@[0].function == VMixFunction::SetText
                && r@[0].input == Some(VMixPlayerInfo::RoundScore(self.player))
                && r@[0].value_view() == Some("("@ + score_text(self.round_score as int) + ")"@)
                && r@[1].function == VMixFunction::SetTextVisibleOn
                && r@[1].input == Some(VMixPlayerInfo::RoundScore(self.player))
                && r@[1].value is None,
            self.round == 0 ==> r@.len() == 1
                && r@[0].function == VMixFunction::SetTextVisibleOff
                && r@[0].input == Some(VMixPlayerInfo::RoundScore(self.player))
                && r@[0].value is None,
    {
        if self.round > 0 {
            let score = fix_score(self.round_score);
            let text = join2("(", score.as_str()).concat(")");
            let mut v = Vec::new();
            v.push(VMixInterfacer::set_text(text, VMixPlayerInfo::RoundScore(self.player)));
            v.push(self.show_round_score());
            v
        } else {
            let mut v = Vec::new();
            v.push(self.hide_round_score());
            v
        }
    }

    fn hide_round_score(&self) -> (r: VMixInterfacer<VMixPlayerInfo>)
        ensures
            r.function == VMixFunction::SetTextVisibleOff,
            r.input == Some(VMixPlayerInfo::RoundScore(self.player)),
            r.value is None,
    {
        VMixInterfacer::set_text_visible_off(VMixPlayerInfo::RoundScore(self.player))
    }

    fn show_round_score(&self) -> (r: VMixInterfacer<VMixPlayerInfo>)
        ensures
            r.function == VMixFunction::SetTextVisibleOn,
            r.input == Some(VMixPlayerInfo::RoundScore(self.player)),
            r.value is None,
    {
        VMixInterfacer::set_text_visible_on(VMixPlayerInfo::RoundScore(self.player))
    }

    pub fn set_total_score(&self) -> (r: VMixInterfacer<VMixPlayerInfo>)
        ensures
            r.function == VMixFunction::SetText,
            r.input == Some(VMixPlayerInfo::TotalScore(self.player)),
            r.value_view() == Some(score_text(self.total_score as int)),
    {
        VMixInterfacer::set_text(fix_score(self.total_score), VMixPlayerInfo::TotalScore(self.player))
    }
}

/// The images that the titles show.
#[derive(Clone, Copy, Debug, PartialEq, Eq, Structural)]
pub enum Image {
    Nothing,
    GreenTriUp,
    RedTriDown,
    Flames,
}

impl Image {
    /// Where the image file lies on the vMix machine.
    pub open spec fn location(self) -> Seq<char> {
        "C:\\livegrafik-flipup\\"@ + match self {
            Image::Nothing => "alpha.png"@,
            Image::GreenTriUp => "greentri.png"@,
            Image::RedTriDown => "redtri.png"@,
            Image::Flames => "fire.png"@,
        }
    }

    pub fn to_location(&self) -> (r: String)
        ensures
            r@ == self.location(),
    {
        let file = match self {
            Image::Nothing => "alpha.png",
            Image::GreenTriUp => "greentri.png",
            Image::RedTriDown => "redtri.png",
            Image::Flames => "fire.png",
        };
        join2("C:\\livegrafik-flipup\\", file)
    }
}

} // verus!
