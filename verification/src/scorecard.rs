//! The scorecard of the first browser controller: a player's rounds as the
//! event's leaderboard reports them, and the calls that fill the scorecard
//! and leaderboard titles of the first interface.
use vstd::prelude::*;

use crate::legacy::{selected, LeaderBoardProperty, VMixFunction, VMixSelection, VMixSelectionTrait, VmixProperty};
use crate::round::{DEFAULT_BACKGROUND_COL, DEFAULT_FOREGROUND_COL};
use crate::sort::{stable_sort, stable_sorted, SortKey};
use crate::text::{int_to_dec, isize_to_string, join2, nat_to_dec, score_text, usize_to_string};

verus! {

/// `SetText` on a field with the given selection.
pub open spec fn text_cmd(sel: Seq<char>, value: Seq<char>) -> Seq<char> {
    "FUNCTION "@ + "SetText"@ + " Input="@ + sel + "&Value="@ + ("Value="@ + value)
}

/// `SetColor` on a field with the given selection.
pub open spec fn color_cmd(sel: Seq<char>, color: Seq<char>) -> Seq<char> {
    "FUNCTION "@ + "SetColor"@ + " Input="@ + sel + "&Value="@ + ("Value=#"@ + color)
}

/// `SetImage` on a field with the given selection.
pub open spec fn image_cmd(sel: Seq<char>, value: Seq<char>) -> Seq<char> {
    "FUNCTION "@ + "SetImage"@ + " Input="@ + sel + "&Value="@ + ("Value="@ + value)
}

/// `SetTextVisibleOn` on a field with the given selection.
pub open spec fn on_cmd(sel: Seq<char>) -> Seq<char> {
    "FUNCTION "@ + "SetTextVisibleOn"@ + " Input="@ + sel
}

/// `SetTextVisibleOff` on a field with the given selection.
pub open spec fn off_cmd(sel: Seq<char>) -> Seq<char> {
    "FUNCTION "@ + "SetTextVisibleOff"@ + " Input="@ + sel
}

fn text_call(value: String, prop: VmixProperty) -> (r: String)
    ensures
        r@ == text_cmd(prop.selection(), value@),
{
    VMixFunction::SetText { value, input: VMixSelection::from_property(prop) }.to_cmd()
}

fn color_call(color: String, prop: VmixProperty) -> (r: String)
    ensures
        r@ == color_cmd(prop.selection(), color@),
{
    VMixFunction::SetColor { color, input: VMixSelection::from_property(prop) }.to_cmd()
}

fn on_call(prop: VmixProperty) -> (r: String)
    ensures
        r@ == on_cmd(prop.selection()),
{
    VMixFunction::SetTextVisibleOn { input: VMixSelection::from_property(prop) }.to_cmd()
}

fn off_call(prop: VmixProperty) -> (r: String)
    ensures
        r@ == off_cmd(prop.selection()),
{
    VMixFunction::SetTextVisibleOff { input: VMixSelection::from_property(prop) }.to_cmd()
}

fn lb_text_call(value: String, prop: LeaderBoardProperty) -> (r: String)
    ensures
        r@ == text_cmd(prop.selection(), value@),
{
    VMixFunction::SetText { value, input: VMixSelection::from(prop) }.to_cmd()
}

fn lb_image_call(value: String, prop: LeaderBoardProperty) -> (r: String)
    ensures
        r@ == image_cmd(prop.selection(), value@),
{
    VMixFunction::SetImage { value, input: VMixSelection::from(prop) }.to_cmd()
}

fn lb_on_call(prop: LeaderBoardProperty) -> (r: String)
    ensures
        r@ == on_cmd(prop.selection()),
{
    VMixFunction::SetTextVisibleOn { input: VMixSelection::from(prop) }.to_cmd()
}

/// A hole of a layout as the leaderboard reports it (whole numbers).
#[derive(Clone, Copy, Debug)]
pub struct Hole {
    pub par: Option<u8>,
    pub number: u8,
}

/// A player's result on a hole as the leaderboard reports it.
#[derive(Clone, Copy, Debug)]
pub struct SimpleResult {
    pub hole: Hole,
    /// The number of throws.
    pub score: u8,
    pub is_circle_hit: bool,
    pub is_inside_putt: bool,
    pub is_out_of_bounds: bool,
    pub is_outside_putt: bool,
}

/// The colour of a score relative to par.
pub open spec fn colour_of(relative: int) -> Seq<char> {
    if relative == 2 {
        "CA988DFF"@
    } else if relative == 1 {
        "EC928FFF"@
    } else if relative == 0 {
        "7E8490FF"@
    } else if relative == -1 {
        "A6F8BBFF"@
    } else if relative == -2 {
        "6A8BE7FF"@
    } else if relative == -3 {
        "DD6AC9FF"@
    } else {
        "AB8E77FF"@
    }
}

/// The clip of a score relative to par (an ace is a hole in one), none past
/// four over par.
pub open spec fn mov_of(relative: int, throws: int) -> Seq<char> {
    if relative == 4 {
        "40 ouch.mov"@
    } else if relative == 3 {
        "30 3xBogey.mov"@
    } else if relative == 2 {
        "20 2xBogey.mov"@
    } else if relative == 1 {
        "10 bogey.mov"@
    } else if relative == 0 {
        "04 par.mov"@
    } else if relative == -1 {
        "03 birdie.mov"@
    } else if relative == -2 {
        "02 eagle.mov"@
    } else if relative == -3 {
        if throws == 1 { "00 ace.mov"@ } else { "01 albatross.mov"@ }
    } else {
        ""@
    }
}

impl SimpleResult {
    /// The score relative to par (the throws where par is unknown).
    pub open spec fn relative(self) -> int {
        match self.hole.par {
            Some(p) => self.score - p,
            None => self.score as int,
        }
    }

    pub fn actual_score(&self) -> (r: i16)
        ensures
            r == self.relative(),
    {
        match self.hole.par {
            Some(p) => self.score as i16 - p as i16,
            None => self.score as i16,
        }
    }

    pub fn get_score_colour(&self) -> (r: &'static str)
        ensures
            r@ == colour_of(self.relative()),
    {
        let s = self.actual_score();
        if s == 2 {
            "CA988DFF"
        } else if s == 1 {
            "EC928FFF"
        } else if s == 0 {
            "7E8490FF"
        } else if s == -1 {
            "A6F8BBFF"
        } else if s == -2 {
            "6A8BE7FF"
        } else if s == -3 {
            "DD6AC9FF"
        } else {
            "AB8E77FF"
        }
    }

    pub fn get_mov(&self) -> (r: &'static str)
        ensures
            r@ == mov_of(self.relative(), self.score as int),
    {
        let s = self.actual_score();
        if s == 4 {
            "40 ouch.mov"
        } else if s == 3 {
            "30 3xBogey.mov"
        } else if s == 2 {
            "20 2xBogey.mov"
        } else if s == 1 {
            "10 bogey.mov"
        } else if s == 0 {
            "04 par.mov"
        } else if s == -1 {
            "03 birdie.mov"
        } else if s == -2 {
            "02 eagle.mov"
        } else if s == -3 {
            if self.score == 1 { "00 ace.mov" } else { "01 albatross.mov" }
        } else {
            ""
        }
    }
}

/// The score on hole index `hole` relative to par; `i16::MAX` where the round
/// has no result there.
pub open spec fn hole_score_of(rs: Seq<SimpleResult>, hole: int) -> int {
    if 0 <= hole < rs.len() {
        rs[hole].relative()
    } else {
        i16::MAX as int
    }
}

/// The sum of the scores on the first `n` hole indexes.
pub open spec fn score_sum(rs: Seq<SimpleResult>, n: int) -> int
    decreases n,
{
    if n <= 0 {
        0
    } else {
        score_sum(rs, n - 1) + hole_score_of(rs, n - 1)
    }
}

/// Whether every partial sum up to `n` holes fits an `i16`.
pub open spec fn sums_fit(rs: Seq<SimpleResult>, n: int) -> bool {
    forall|k: int| 0 <= k <= n ==> i16::MIN <= #[trigger] score_sum(rs, k) <= i16::MAX
}

/// A player's round as the leaderboard reports it.
#[derive(Clone, Debug)]
pub struct PlayerRound {
    pub results: Vec<SimpleResult>,
}

impl PlayerRound {
    pub fn new(results: Vec<SimpleResult>) -> (r: Self)
        ensures
            r.results@ == results@,
    {
        PlayerRound { results }
    }

    /// The score up to and including hole index `hole`.
    pub fn score_to_hole(&self, hole: usize) -> (r: i16)
        requires
            hole < usize::MAX,
            sums_fit(self.results@, hole + 1),
        ensures
            r == score_sum(self.results@, hole + 1),
    {
        let mut sum: i16 = 0;
        let mut i: usize = 0;
        while i <= hole
            invariant
                i <= hole + 1,
                hole < usize::MAX,
                sums_fit(self.results@, hole + 1),
                sum == score_sum(self.results@, i as int),
            decreases hole + 1 - i,
        {
            assert(i16::MIN <= score_sum(self.results@, i + 1) <= i16::MAX);
            sum = sum + self.hole_score(i);
            i = i + 1;
        }
        sum
    }

    /// The score on hole index `hole` (see `hole_score_of`).
    pub fn hole_score(&self, hole: usize) -> (r: i16)
        ensures
            r == hole_score_of(self.results@, hole as int),
    {
        if hole < self.results.len() {
            self.results[hole].actual_score()
        } else {
            i16::MAX
        }
    }

    /// The hole card of hole index `hole`: its number, par, length in meters
    /// and in feet (the lengths as the layout gives them, converted by the
    /// caller).
    pub fn get_hole_info(&self, hole: usize, meters: u64, feet: u64) -> (r: Vec<String>)
        requires
            hole < self.results@.len(),
            self.results@[hole as int].hole.par is Some,
        ensures
            r@.map_values(|s: String| s@) == seq![
                text_cmd(VmixProperty::Hole.selection(), nat_to_dec(self.results@[hole as int].hole.number as nat)),
                text_cmd(VmixProperty::HolePar.selection(), nat_to_dec(self.results@[hole as int].hole.par->0 as nat)),
                text_cmd(VmixProperty::HoleMeters.selection(), nat_to_dec(meters as nat) + "M"@),
                text_cmd(VmixProperty::HoleFeet.selection(), nat_to_dec(feet as nat) + "FT"@),
            ],
    {
        let h = self.results[hole].hole;
        let par = match h.par {
            Some(p) => p,
            None => 0,
        };
        let mut r: Vec<String> = Vec::new();
        r.push(text_call(usize_to_string(h.number as usize), VmixProperty::Hole));
        r.push(text_call(usize_to_string(par as usize), VmixProperty::HolePar));
        r.push(text_call(crate::text::u128_to_string(meters as u128).concat("M"), VmixProperty::HoleMeters));
        r.push(text_call(crate::text::u128_to_string(feet as u128).concat("FT"), VmixProperty::HoleFeet));
        proof {
            reveal_strlit("M");
            reveal_strlit("FT");
            assert(r@.map_values(|s: String| s@) =~= seq![
                text_cmd(VmixProperty::Hole.selection(), nat_to_dec(h.number as nat)),
                text_cmd(VmixProperty::HolePar.selection(), nat_to_dec(par as nat)),
                text_cmd(VmixProperty::HoleMeters.selection(), nat_to_dec(meters as nat) + "M"@),
                text_cmd(VmixProperty::HoleFeet.selection(), nat_to_dec(feet as nat) + "FT"@),
            ]);
        }
        r
    }
}

/// How a player moved on the leaderboard since the round before.
#[derive(Clone, Copy, Debug, PartialEq, Eq, Structural)]
pub enum RankUpDown {
    Up(i16),
    Down(i16),
    Same,
}

/// The arrow image of a move.
pub open spec fn arrow_of(r: RankUpDown) -> Seq<char> {
    match r {
        RankUpDown::Up(_) => "x:\\FLIPUP\\grafik\\greentri.png"@,
        RankUpDown::Down(_) => "x:\\FLIPUP\\grafik\\redtri.png"@,
        RankUpDown::Same => "x:\\FLIPUP\\grafik\\alpha.png"@,
    }
}

/// The text of a move: its size, nothing when there is none.
pub open spec fn move_text(r: RankUpDown) -> Seq<char> {
    match r {
        RankUpDown::Up(v) => int_to_dec(v as int),
        RankUpDown::Down(v) => int_to_dec(v as int),
        RankUpDown::Same => Seq::empty(),
    }
}

impl RankUpDown {
    /// The move and the arrow of the leaderboard row `pos`.
    pub fn get_tcps(&self, pos: u16) -> (r: Vec<String>)
        ensures
            r@.map_values(|s: String| s@) == seq![
                text_cmd(LeaderBoardProperty::Move { pos }.selection(), move_text(*self)),
                image_cmd(LeaderBoardProperty::Arrow { pos }.selection(), arrow_of(*self)),
            ],
    {
        let mut r: Vec<String> = Vec::new();
        r.push(self.make_move(pos));
        r.push(self.make_arrow(pos));
        assert(r@.map_values(|s: String| s@) =~= seq![
            text_cmd(LeaderBoardProperty::Move { pos }.selection(), move_text(*self)),
            image_cmd(LeaderBoardProperty::Arrow { pos }.selection(), arrow_of(*self)),
        ]);
        r
    }

    pub fn make_move(&self, pos: u16) -> (r: String)
        ensures
            r@ == text_cmd(LeaderBoardProperty::Move { pos }.selection(), move_text(*self)),
    {
        let movement = match self {
            RankUpDown::Up(v) => isize_to_string(*v as isize),
            RankUpDown::Down(v) => isize_to_string(*v as isize),
            RankUpDown::Same => String::new(),
        };
        lb_text_call(movement, LeaderBoardProperty::Move { pos })
    }

    pub fn make_arrow(&self, pos: u16) -> (r: String)
        ensures
            r@ == image_cmd(LeaderBoardProperty::Arrow { pos }.selection(), arrow_of(*self)),
    {
        let img = match self {
            RankUpDown::Up(_) => "x:\\FLIPUP\\grafik\\greentri.png",
            RankUpDown::Down(_) => "x:\\FLIPUP\\grafik\\redtri.png",
            RankUpDown::Same => "x:\\FLIPUP\\grafik\\alpha.png",
        };
        lb_image_call(String::from_str(img), LeaderBoardProperty::Arrow { pos })
    }
}


/// A player of the first browser controller: their rounds, what the
/// scorecard shows of them (slot `ind`, the hole index `hole` next to score,
/// the scores shifted out of view) and their leaderboard row.
#[derive(Clone, Debug)]
pub struct NewPlayer {
    pub player_id: String,
    pub name: String,
    pub first_name: String,
    pub surname: String,
    pub rank: RankUpDown,
    /// Total score for all rounds.
    pub total_score: i16,
    /// Score for only the current round.
    pub round_score: i16,
    pub round_ind: usize,
    pub rounds: Vec<PlayerRound>,
    pub hole: usize,
    pub ind: usize,
    pub vmix_id: String,
    pub throws: u8,
    pub shift: usize,
    pub ob: bool,
    pub position: u16,
    pub lb_even: bool,
    pub hot_round: bool,
    pub lb_vmix_id: String,
    pub lb_pos: u16,
    pub old_pos: u16,
    pub pos_visible: bool,
    pub lb_shown: bool,
    pub dnf: bool,
    pub first_scored: bool,
    pub thru: u8,
    pub visible_player: bool,
}

impl Default for NewPlayer {
    fn default() -> (r: Self)
        ensures
            r.player_id@ == Seq::<char>::empty() && r.name@ == Seq::<char>::empty(),
            r.first_name@ == Seq::<char>::empty() && r.surname@ == Seq::<char>::empty(),
            r.rank == RankUpDown::Same,
            r.total_score == 0 && r.round_score == 0 && r.round_ind == 0,
            r.rounds@.len() == 0,
            r.hole == 0 && r.ind == 0 && r.throws == 0 && r.shift == 0,
            r.vmix_id@ == Seq::<char>::empty() && r.lb_vmix_id@ == Seq::<char>::empty(),
            !r.ob && r.position == 0 && !r.lb_even && !r.hot_round,
            r.lb_pos == 0 && r.old_pos == 0,
            r.pos_visible && r.lb_shown && !r.dnf && !r.first_scored,
            r.thru == 0 && r.visible_player,
    {
        NewPlayer {
            player_id: String::new(),
            name: String::new(),
            first_name: String::new(),
            surname: String::new(),
            rank: RankUpDown::Same,
            total_score: 0,
            round_score: 0,
            round_ind: 0,
            rounds: Vec::new(),
            hole: 0,
            ind: 0,
            vmix_id: String::new(),
            throws: 0,
            shift: 0,
            ob: false,
            position: 0,
            lb_even: false,
            hot_round: false,
            lb_vmix_id: String::new(),
            lb_pos: 0,
            old_pos: 0,
            pos_visible: true,
            lb_shown: true,
            dnf: false,
            first_scored: false,
            thru: 0,
            visible_player: true,
        }
    }
}

/// The results of the round that is on, where the player has it.
pub open spec fn cur_results(p: NewPlayer) -> Option<Seq<SimpleResult>> {
    if p.round_ind < p.rounds@.len() {
        Some(p.rounds@[p.round_ind as int].results@)
    } else {
        None
    }
}

/// The score on hole index `hole` of the round that is on; `i16::MAX` where
/// there is no such round.
pub open spec fn cur_hole_score(p: NewPlayer, hole: int) -> int {
    match cur_results(p) {
        Some(rs) => hole_score_of(rs, hole),
        None => i16::MAX as int,
    }
}

/// The score up to and including hole index `hole` of the round that is on;
/// `i16::MAX` where there is no such round.
pub open spec fn cur_score_to(p: NewPlayer, hole: int) -> int {
    match cur_results(p) {
        Some(rs) => score_sum(rs, hole + 1),
        None => i16::MAX as int,
    }
}

/// The colour of the score on hole index `hole` of the round that is on;
/// black where there is none.
pub open spec fn cur_colour(p: NewPlayer, hole: int) -> Seq<char> {
    match cur_results(p) {
        Some(rs) => if 0 <= hole < rs.len() { colour_of(rs[hole].relative()) } else { "000000"@ },
        None => "000000"@,
    }
}

/// The clip of the score on hole index `hole` of the round that is on
/// (the out-of-bounds clip where one is marked); none where there is none.
pub open spec fn cur_mov(p: NewPlayer) -> Seq<char> {
    if p.ob {
        "50 ob.mov"@
    } else {
        match cur_results(p) {
            Some(rs) => if p.hole < rs.len() { mov_of(rs[p.hole as int].relative(), rs[p.hole as int].score as int) } else { ""@ },
            None => ""@,
        }
    }
}

/// The sum of the full rounds (18 holes) before round `n`.
pub open spec fn rounds_sum(rounds: Seq<PlayerRound>, n: int) -> int
    decreases n,
{
    if n <= 0 {
        0
    } else {
        rounds_sum(rounds, n - 1) + score_sum(rounds[n - 1].results@, 18)
    }
}

/// Whether the rounds before round `n` and their running sum fit an `i16`.
pub open spec fn rounds_fit(rounds: Seq<PlayerRound>, n: int) -> bool {
    &&& forall|r: int| 0 <= r < n ==> #[trigger] sums_fit(rounds[r].results@, 18)
    &&& forall|k: int| 0 <= k <= n ==> i16::MIN <= #[trigger] rounds_sum(rounds, k) <= i16::MAX
}

/// Whether the player leaves the leaderboard's count: they did not finish,
/// or the round is past the rounds they have.
pub open spec fn leaves_count(p: NewPlayer) -> bool {
    p.rounds@.len() < p.round_ind || p.dnf
}

/// The score of the rounds before the round that is on (zero for a player
/// who leaves the count).
pub open spec fn before_round(p: NewPlayer) -> int {
    if leaves_count(p) { 0 } else { rounds_sum(p.rounds@, p.round_ind as int) }
}

/// Whether the scores before the round that is on can be summed.
pub open spec fn before_ok(p: NewPlayer) -> bool {
    !leaves_count(p) ==> rounds_fit(p.rounds@, p.round_ind as int)
}

/// Whether the round and total scores up to the hole in view can be counted.
pub open spec fn tot_ok(p: NewPlayer) -> bool {
    &&& before_ok(p)
    &&& p.hole < usize::MAX
    &&& cur_results(p) matches Some(rs) ==> sums_fit(rs, p.hole + 1)
    &&& i16::MIN <= before_round(p) + cur_score_to(p, p.hole as int) <= i16::MAX
}

/// The player after their round and total scores were counted up to the hole
/// in view.
pub open spec fn totalled(p: NewPlayer) -> NewPlayer {
    NewPlayer {
        round_score: cur_score_to(p, p.hole as int) as i16,
        total_score: (before_round(p) + cur_score_to(p, p.hole as int)) as i16,
        dnf: p.dnf || p.rounds@.len() < p.round_ind,
        ..p
    }
}

/// The total score call of slot `ind`.
pub open spec fn tot_cmd(ind: usize, total: int) -> Seq<char> {
    text_cmd(VmixProperty::TotalScore(ind).selection(), score_text(total))
}

/// The round score calls of slot `ind`: the score in brackets, shown.
pub open spec fn round_cmds(ind: usize, round: int) -> Seq<Seq<char>> {
    seq![
        text_cmd(VmixProperty::RoundScore(ind).selection(), "("@ + score_text(round) + ")"@),
        on_cmd(VmixProperty::RoundScore(ind).selection()),
    ]
}

/// The throws call of slot `ind`.
pub open spec fn throw_cmd(ind: usize, throws: u8) -> Seq<char> {
    text_cmd(VmixProperty::Throw(ind).selection(), nat_to_dec(throws as nat))
}

/// The calls that empty the score of hole index `hole` of slot `ind`.
pub open spec fn del_cmds(ind: usize, hole: usize) -> Seq<Seq<char>> {
    seq![
        text_cmd(VmixProperty::Score((hole + 1) as usize, ind).selection(), Seq::empty()),
        color_cmd(VmixProperty::ScoreColor((hole + 1) as usize, ind).selection(), "3F334D"@ + "00"@),
        text_cmd(VmixProperty::HoleNumber((hole + 1) as usize, ind).selection(), nat_to_dec((hole + 1) as nat)),
        off_cmd(VmixProperty::Score((hole + 1) as usize, ind).selection()),
    ]
}

/// The calls that hide the position of slot `ind`.
pub open spec fn hide_pos_cmds(ind: usize) -> Seq<Seq<char>> {
    seq![
        off_cmd(VmixProperty::PlayerPosition(ind as u16).selection()),
        color_cmd(VmixProperty::PosRightTriColor(ind).selection(), "00000000"@),
        color_cmd(VmixProperty::PosSquareColor(ind).selection(), "00000000"@),
    ]
}

/// The calls that show the position of slot `ind`.
pub open spec fn show_pos_cmds(ind: usize) -> Seq<Seq<char>> {
    seq![
        on_cmd(VmixProperty::PlayerPosition(ind as u16).selection()),
        color_cmd(VmixProperty::PosRightTriColor(ind).selection(), "574B60"@),
        color_cmd(VmixProperty::PosSquareColor(ind).selection(), "574B60"@),
    ]
}

/// The views of a list of calls.
pub open spec fn cmds(v: Seq<String>) -> Seq<Seq<char>> {
    v.map_values(|s: String| s@)
}

impl NewPlayer {
    /// The round that is on, where the player has it.
    pub fn current_round(&self) -> (r: Option<&PlayerRound>)
        ensures
            match r {
                Some(round) => cur_results(*self) == Some(round.results@),
                None => cur_results(*self) is None,
            },
    {
        if self.round_ind < self.rounds.len() {
            Some(&self.rounds[self.round_ind])
        } else {
            None
        }
    }

    /// The score on hole index `hole` of the round that is on (see `cur_hole_score`).
    pub fn current_hole_score(&self, hole: usize) -> (r: i16)
        ensures
            r == cur_hole_score(*self, hole as int),
    {
        match self.current_round() {
            Some(round) => round.hole_score(hole),
            None => i16::MAX,
        }
    }

    /// The score up to hole index `hole` of the round that is on (see `cur_score_to`).
    pub fn current_score_to_hole(&self, hole: usize) -> (r: i16)
        requires
            hole < usize::MAX,
            cur_results(*self) matches Some(rs) ==> sums_fit(rs, hole + 1),
        ensures
            r == cur_score_to(*self, hole as int),
    {
        match self.current_round() {
            Some(round) => round.score_to_hole(hole),
            None => i16::MAX,
        }
    }

    /// The score of the full round that is on.
    pub fn get_round_total_score(&self) -> (r: i16)
        requires
            cur_results(*self) matches Some(rs) ==> sums_fit(rs, 18),
        ensures
            r == cur_score_to(*self, 17),
    {
        self.current_score_to_hole(17)
    }

    /// The score of the rounds before the one that is on; a player past the
    /// rounds they have is marked as not finishing, and such a player counts
    /// zero.
    pub fn score_before_round(&mut self) -> (r: i16)
        requires
            before_ok(*old(self)),
        ensures
            r == before_round(*old(self)),
            *final(self) == (NewPlayer { dnf: old(self).dnf || old(self).rounds@.len() < old(self).round_ind, ..*old(self) }),
    {
        if self.rounds.len() < self.round_ind || self.dnf {
            self.dnf = true;
            return 0;
        }
        let mut total: i16 = 0;
        let mut r: usize = 0;
        while r < self.round_ind
            invariant
                r <= self.round_ind,
                self.round_ind <= self.rounds@.len(),
                rounds_fit(self.rounds@, self.round_ind as int),
                total == rounds_sum(self.rounds@, r as int),
            decreases self.round_ind - r,
        {
            assert(sums_fit(self.rounds@[r as int].results@, 18));
            assert(i16::MIN <= rounds_sum(self.rounds@, r + 1) <= i16::MAX);
            total = total + self.rounds[r].score_to_hole(17);
            r = r + 1;
        }
        total
    }

    /// The colour of the score on the hole in view (see `cur_colour`).
    pub fn get_col(&self) -> (r: String)
        ensures
            r@ == cur_colour(*self, self.hole as int),
    {
        match self.current_round() {
            Some(round) => if self.hole < round.results.len() {
                String::from_str(round.results[self.hole].get_score_colour())
            } else {
                String::from_str("000000")
            },
            None => String::from_str("000000"),
        }
    }

    /// A player past the rounds they have is not shown on the leaderboard.
    pub fn check_if_allowed_to_visible(&mut self)
        ensures
            *final(self) == (NewPlayer { lb_shown: if old(self).round_ind >= old(self).rounds@.len() { false } else { old(self).lb_shown }, ..*old(self) }),
    {
        if self.round_ind >= self.rounds.len() {
            self.lb_shown = false;
        }
    }

    /// Counts the round score up to the hole in view, and the total with the
    /// rounds before.
    pub fn make_tot_score(&mut self)
        requires
            tot_ok(*old(self)),
        ensures
            *final(self) == totalled(*old(self)),
    {
        let round = self.current_score_to_hole(self.hole);
        self.round_score = round;
        let before = self.score_before_round();
        self.total_score = before + round;
    }

    /// The move on the leaderboard since the round before: up or down by the
    /// difference of the positions, none in the first round.
    pub fn check_pos(&mut self)
        requires
            old(self).old_pos <= i16::MAX,
            old(self).lb_pos <= i16::MAX,
        ensures
            *final(self) == (NewPlayer {
                rank: if old(self).old_pos < old(self).lb_pos && old(self).round_ind != 0 {
                    RankUpDown::Down((old(self).lb_pos - old(self).old_pos) as i16)
                } else if old(self).old_pos > old(self).lb_pos && old(self).round_ind != 0 {
                    RankUpDown::Up((old(self).old_pos - old(self).lb_pos) as i16)
                } else {
                    RankUpDown::Same
                },
                ..*old(self)
            }),
    {
        if self.old_pos < self.lb_pos && self.round_ind != 0 {
            let d: i16 = self.old_pos as i16 - self.lb_pos as i16;
            self.rank = RankUpDown::Down(-d);
        } else if self.old_pos > self.lb_pos && self.round_ind != 0 {
            let d: i16 = self.lb_pos as i16 - self.old_pos as i16;
            self.rank = RankUpDown::Up(-d);
        } else {
            self.rank = RankUpDown::Same;
        }
    }

    /// The first name and the surname of slot `ind`.
    pub fn set_name(&self) -> (r: Vec<String>)
        ensures
            cmds(r@) == seq![
                text_cmd(VmixProperty::Name(self.ind).selection(), self.first_name@),
                text_cmd(VmixProperty::Surname(self.ind).selection(), self.surname@),
            ],
    {
        let mut r: Vec<String> = Vec::new();
        r.push(text_call(self.first_name.clone(), VmixProperty::Name(self.ind)));
        r.push(text_call(self.surname.clone(), VmixProperty::Surname(self.ind)));
        assert(cmds(r@) =~= seq![
            text_cmd(VmixProperty::Name(self.ind).selection(), self.first_name@),
            text_cmd(VmixProperty::Surname(self.ind).selection(), self.surname@),
        ]);
        r
    }

    pub fn set_tot_score(&self) -> (r: String)
        ensures
            r@ == tot_cmd(self.ind, self.total_score as int),
    {
        text_call(crate::text::fix_score(self.total_score as isize), VmixProperty::TotalScore(self.ind))
    }

    pub fn hide_round_score(&self) -> (r: String)
        ensures
            r@ == off_cmd(VmixProperty::RoundScore(self.ind).selection()),
    {
        off_call(VmixProperty::RoundScore(self.ind))
    }

    pub fn set_round_score(&self) -> (r: Vec<String>)
        ensures
            cmds(r@) == round_cmds(self.ind, self.round_score as int),
    {
        let text = join2("(", crate::text::fix_score(self.round_score as isize).as_str()).concat(")");
        let mut r: Vec<String> = Vec::new();
        r.push(text_call(text, VmixProperty::RoundScore(self.ind)));
        r.push(self.show_round_score());
        assert(cmds(r@) =~= round_cmds(self.ind, self.round_score as int));
        r
    }

    pub fn show_round_score(&self) -> (r: String)
        ensures
            r@ == on_cmd(VmixProperty::RoundScore(self.ind).selection()),
    {
        on_call(VmixProperty::RoundScore(self.ind))
    }

    /// The position of slot `ind` (`T` before a shared one), where the player
    /// is shown; an empty call otherwise.
    pub fn set_pos(&self) -> (r: String)
        ensures
            r@ == if self.visible_player {
                text_cmd(VmixProperty::PlayerPosition(self.ind as u16).selection(),
                    (if self.lb_even { "T"@ } else { Seq::empty() }) + nat_to_dec(self.lb_pos as nat))
            } else {
                Seq::empty()
            },
    {
        let prefix = if self.lb_even { String::from_str("T") } else { String::new() };
        let value = prefix.concat(usize_to_string(self.lb_pos as usize).as_str());
        if self.visible_player {
            text_call(value, VmixProperty::PlayerPosition(self.ind as u16))
        } else {
            String::new()
        }
    }

    pub fn hide_pos(&mut self) -> (r: Vec<String>)
        ensures
            *final(self) == (NewPlayer { pos_visible: false, ..*old(self) }),
            cmds(r@) == hide_pos_cmds(old(self).ind),
    {
        self.pos_visible = false;
        let mut r: Vec<String> = Vec::new();
        r.push(off_call(VmixProperty::PlayerPosition(self.ind as u16)));
        r.push(color_call(String::from_str("00000000"), VmixProperty::PosRightTriColor(self.ind)));
        r.push(color_call(String::from_str("00000000"), VmixProperty::PosSquareColor(self.ind)));
        assert(cmds(r@) =~= hide_pos_cmds(self.ind));
        r
    }

    pub fn show_pos(&mut self) -> (r: Vec<String>)
        ensures
            *final(self) == (NewPlayer { pos_visible: true, ..*old(self) }),
            cmds(r@) == show_pos_cmds(old(self).ind),
    {
        self.pos_visible = true;
        let mut r: Vec<String> = Vec::new();
        r.push(on_call(VmixProperty::PlayerPosition(self.ind as u16)));
        r.push(color_call(String::from_str(DEFAULT_BACKGROUND_COL), VmixProperty::PosRightTriColor(self.ind)));
        r.push(color_call(String::from_str(DEFAULT_BACKGROUND_COL), VmixProperty::PosSquareColor(self.ind)));
        assert(cmds(r@) =~= show_pos_cmds(self.ind));
        r
    }

    /// Hides the position where it is shown, shows it otherwise.
    pub fn toggle_pos(&mut self) -> (r: Vec<String>)
        ensures
            *final(self) == (NewPlayer { pos_visible: !old(self).pos_visible, ..*old(self) }),
            cmds(r@) == if old(self).pos_visible { hide_pos_cmds(old(self).ind) } else { show_pos_cmds(old(self).ind) },
    {
        if self.pos_visible {
            self.hide_pos()
        } else {
            self.show_pos()
        }
    }

    /// The calls that empty the score of the hole in view.
    pub fn del_score(&mut self) -> (r: Vec<String>)
        requires
            old(self).hole < usize::MAX,
        ensures
            *final(self) == *old(self),
            cmds(r@) == del_cmds(old(self).ind, old(self).hole),
    {
        let n = self.hole + 1;
        let mut r: Vec<String> = Vec::new();
        r.push(text_call(String::new(), VmixProperty::Score(n, self.ind)));
        r.push(color_call(join2(DEFAULT_FOREGROUND_COL, "00"), VmixProperty::ScoreColor(n, self.ind)));
        r.push(text_call(usize_to_string(n), VmixProperty::HoleNumber(n, self.ind)));
        r.push(off_call(VmixProperty::Score(n, self.ind)));
        assert(cmds(r@) =~= del_cmds(self.ind, self.hole));
        r
    }

    /// The throws of slot `ind`.
    pub fn set_throw(&self) -> (r: String)
        ensures
            r@ == throw_cmd(self.ind, self.throws),
    {
        text_call(usize_to_string(self.throws as usize), VmixProperty::Throw(self.ind))
    }

    /// The clip of the score on the hole in view (see `cur_mov`).
    pub fn get_mov(&self) -> (r: String)
        ensures
            r@ == cur_mov(*self),
    {
        proof {
            reveal_strlit("");
        }
        if self.ob {
            String::from_str("50 ob.mov")
        } else {
            match self.current_round() {
                Some(round) => if self.hole < round.results.len() {
                    String::from_str(round.results[self.hole].get_mov())
                } else {
                    String::new()
                },
                None => String::new(),
            }
        }
    }

    /// Plays the clip of the score on the hole in view: the clip overlay is
    /// taken off, the clip is panned to slot `ind` (by `pan`, the pan value as
    /// sent) and overlaid; the out-of-bounds mark is cleared.
    pub fn start_score_anim(&mut self, pan: String) -> (r: Vec<String>)
        ensures
            *final(self) == (NewPlayer { ob: false, ..*old(self) }),
            cmds(r@) == seq![
                "FUNCTION "@ + "OverlayInput4Off"@,
                "FUNCTION "@ + "SetPanX"@ + " Input="@ + ("SelectedName="@ + cur_mov(*old(self))) + "&Value="@ + ("Value="@ + pan@),
                "FUNCTION "@ + "OverlayInput4"@ + " Input="@ + cur_mov(*old(self)),
            ],
    {
        let off: VMixFunction<VmixProperty> = VMixFunction::OverlayInput4Off;
        let mut r: Vec<String> = Vec::new();
        r.push(off.to_cmd());
        let mov = self.get_mov();
        r.push(VMixFunction::SetPanX { value: pan, input: VMixSelection::from_property(VmixProperty::Mov(mov.clone())) }.to_cmd());
        let overlay: VMixFunction<VmixProperty> = VMixFunction::OverlayInput4(mov);
        r.push(overlay.to_cmd());
        self.ob = false;
        assert(cmds(r@) =~= seq![
            "FUNCTION "@ + "OverlayInput4Off"@,
            "FUNCTION "@ + "SetPanX"@ + " Input="@ + ("SelectedName="@ + cur_mov(*old(self))) + "&Value="@ + ("Value="@ + pan@),
            "FUNCTION "@ + "OverlayInput4"@ + " Input="@ + cur_mov(*old(self)),
        ]);
        r
    }
}


/// Whether the hole in view can be scored: the totals can be counted, and the
/// field of the hole and the next hole index exist.
pub open spec fn score_ok(p: NewPlayer) -> bool {
    &&& tot_ok(p)
    &&& p.shift <= p.hole + 1
    &&& p.hole + 1 < usize::MAX
}

/// The player after the hole in view was scored: the totals counted, the next
/// hole in view, no throws.
#[verifier::opaque]
pub open spec fn scored(p: NewPlayer) -> NewPlayer {
    let q = totalled(NewPlayer { first_scored: true, ..p });
    NewPlayer { hole: (p.hole + 1) as usize, throws: 0, ..q }
}

/// The calls of scoring the hole in view (none for a player not shown): the
/// score, its colour and visibility and the hole number in the hole's field,
/// the total, the round score after the first round, and the throws.
pub open spec fn score_cmds(p: NewPlayer) -> Seq<Seq<char>> {
    let q = totalled(NewPlayer { first_scored: true, ..p });
    let pos = (p.hole + 1 - p.shift) as usize;
    if p.visible_player {
        seq![
            text_cmd(VmixProperty::Score(pos, p.ind).selection(), int_to_dec(cur_hole_score(p, p.hole as int))),
            color_cmd(VmixProperty::ScoreColor(pos, p.ind).selection(), cur_colour(p, p.hole as int)),
            on_cmd(VmixProperty::Score(pos, p.ind).selection()),
            text_cmd(VmixProperty::HoleNumber(pos, p.ind).selection(), nat_to_dec((p.hole + 1) as nat)),
            tot_cmd(p.ind, q.total_score as int),
        ] + (if p.round_ind > 0 { round_cmds(p.ind, q.round_score as int) } else { seq![] })
            + seq![throw_cmd(p.ind, 0)]
    } else {
        seq![]
    }
}

/// The player after `n` holes were scored one after another.
pub open spec fn steps(p: NewPlayer, n: nat) -> NewPlayer
    decreases n,
{
    if n == 0 {
        p
    } else {
        scored(steps(p, (n - 1) as nat))
    }
}

/// The calls of scoring `n` holes one after another.
pub open spec fn steps_cmds(p: NewPlayer, n: nat) -> Seq<Seq<char>>
    decreases n,
{
    if n == 0 {
        seq![]
    } else {
        steps_cmds(p, (n - 1) as nat) + score_cmds(steps(p, (n - 1) as nat))
    }
}

/// Whether `n` holes can be scored one after another.
pub open spec fn steps_ok(p: NewPlayer, n: nat) -> bool {
    forall|k: nat| k < n ==> #[trigger] score_ok(steps(p, k))
}

/// Where shifting starts: the first hole index in view once the scores are
/// shifted so that the hole in view is in the last field (or the one before,
/// with a blank last field).
pub open spec fn shift_start(p: NewPlayer, last_blank: bool) -> usize {
    (p.hole - 8 + if last_blank && p.hole != 17 { 1int } else { 0int }) as usize
}

/// The player set up for shifting: the holes from the start on are scored again.
pub open spec fn shift_base(p: NewPlayer, last_blank: bool) -> NewPlayer {
    NewPlayer { hole: shift_start(p, last_blank), shift: shift_start(p, last_blank), ..p }
}

/// How many holes are scored again when shifting.
pub open spec fn shift_count(p: NewPlayer, last_blank: bool) -> nat {
    (p.hole - shift_start(p, last_blank) + 1) as nat
}

/// Whether the scores can be shifted.
pub open spec fn shift_ok(p: NewPlayer, last_blank: bool) -> bool {
    &&& p.hole >= 8
    &&& p.hole + 2 < usize::MAX
    &&& steps_ok(shift_base(p, last_blank), shift_count(p, last_blank))
}

/// The player after the scores were shifted.
pub open spec fn shifted(p: NewPlayer, last_blank: bool) -> NewPlayer {
    steps(shift_base(p, last_blank), shift_count(p, last_blank))
}

/// The calls of shifting the scores (none for a player not shown): the holes
/// scored again, then, with a blank last field that is not past the course,
/// that field emptied under the next hole's number.
pub open spec fn shift_cmds(p: NewPlayer, last_blank: bool) -> Seq<Seq<char>> {
    if p.visible_player {
        steps_cmds(shift_base(p, last_blank), shift_count(p, last_blank))
            + if last_blank && shifted(p, last_blank).hole != 18 {
                seq![
                    text_cmd(VmixProperty::HoleNumber(9, p.ind).selection(), nat_to_dec((p.hole + 2) as nat)),
                    off_cmd(VmixProperty::Score(9, p.ind).selection()),
                    color_cmd(VmixProperty::ScoreColor(9, p.ind).selection(), "3F334D"@ + "00"@),
                ]
            } else {
                seq![]
            }
    } else {
        seq![]
    }
}

proof fn lemma_scored_keeps(p: NewPlayer)
    ensures
        scored(p).visible_player == p.visible_player,
        scored(p).ind == p.ind,
        scored(p).hole == p.hole + 1 || p.hole + 1 > usize::MAX,
{
    reveal(scored);
}

impl NewPlayer {
    /// Scores the hole in view (see `scored` and `score_cmds`).
    pub fn set_hole_score(&mut self) -> (r: Vec<String>)
        requires
            score_ok(*old(self)),
        ensures
            *final(self) == scored(*old(self)),
            cmds(r@) == score_cmds(*old(self)),
    {
        proof {
            reveal(scored);
            reveal(score_cmds);
        }
        let ghost p = *self;
        let result = self.current_hole_score(self.hole);
        if !self.first_scored {
            self.first_scored = true;
        }
        assert(*self == (NewPlayer { first_scored: true, ..p }));
        self.make_tot_score();
        let pos = self.hole + 1 - self.shift;
        let mut r: Vec<String> = Vec::new();
        r.push(text_call(isize_to_string(result as isize), VmixProperty::Score(pos, self.ind)));
        r.push(color_call(self.get_col(), VmixProperty::ScoreColor(pos, self.ind)));
        r.push(on_call(VmixProperty::Score(pos, self.ind)));
        r.push(text_call(usize_to_string(self.hole + 1), VmixProperty::HoleNumber(pos, self.ind)));
        r.push(self.set_tot_score());
        if self.round_ind > 0 {
            let mut round = self.set_round_score();
            r.append(&mut round);
        }
        self.hole = self.hole + 1;
        self.throws = 0;
        r.push(self.set_throw());
        proof {
            let q = totalled(NewPlayer { first_scored: true, ..p });
            assert(cmds(r@) =~= seq![
                text_cmd(VmixProperty::Score(pos, p.ind).selection(), int_to_dec(cur_hole_score(p, p.hole as int))),
                color_cmd(VmixProperty::ScoreColor(pos, p.ind).selection(), cur_colour(p, p.hole as int)),
                on_cmd(VmixProperty::Score(pos, p.ind).selection()),
                text_cmd(VmixProperty::HoleNumber(pos, p.ind).selection(), nat_to_dec((p.hole + 1) as nat)),
                tot_cmd(p.ind, q.total_score as int),
            ] + (if p.round_ind > 0 { round_cmds(p.ind, q.round_score as int) } else { seq![] })
                + seq![throw_cmd(p.ind, 0)]);
        }
        if self.visible_player {
            r
        } else {
            Vec::new()
        }
    }

    /// Scores `n` holes one after another.
    fn score_holes(&mut self, n: usize) -> (r: Vec<String>)
        requires
            steps_ok(*old(self), n as nat),
        ensures
            *final(self) == steps(*old(self), n as nat),
            cmds(r@) == steps_cmds(*old(self), n as nat),
    {
        let ghost base = *self;
        let mut r: Vec<String> = Vec::new();
        let mut k: usize = 0;
        while k < n
            invariant
                k <= n,
                steps_ok(base, n as nat),
                *self == steps(base, k as nat),
                cmds(r@) == steps_cmds(base, k as nat),
            decreases n - k,
        {
            assert(score_ok(steps(base, k as nat)));
            let mut step = self.set_hole_score();
            let ghost before = r@;
            r.append(&mut step);
            assert(cmds(r@) =~= cmds(before) + score_cmds(steps(base, k as nat)));
            k = k + 1;
        }
        r
    }

    /// Scores the holes again from the first one in view after shifting (see
    /// `shifted` and `shift_cmds`).
    #[verifier::rlimit(60)]
    pub fn shift_scores(&mut self, last_blank: bool) -> (r: Vec<String>)
        requires
            shift_ok(*old(self), last_blank),
        ensures
            *final(self) == shifted(*old(self), last_blank),
            cmds(r@) == shift_cmds(*old(self), last_blank),
    {
        let ghost p = *self;
        let in_hole = self.hole;
        let diff = if last_blank && self.hole != 17 { self.hole - 8 + 1 } else { self.hole - 8 };
        self.hole = diff;
        self.shift = diff;
        assert(*self == shift_base(p, last_blank));
        let n = in_hole - diff + 1;
        let mut r = self.score_holes(n);
        proof {
            lemma_steps_keep(shift_base(p, last_blank), n as nat);
        }
        let ghost mid = r@;
        if last_blank && self.hole != 18 {
            r.push(text_call(usize_to_string(in_hole + 2), VmixProperty::HoleNumber(9, self.ind)));
            r.push(off_call(VmixProperty::Score(9, self.ind)));
            r.push(color_call(join2(DEFAULT_FOREGROUND_COL, "00"), VmixProperty::ScoreColor(9, self.ind)));
            assert(cmds(r@) =~= cmds(mid) + seq![
                text_cmd(VmixProperty::HoleNumber(9, p.ind).selection(), nat_to_dec((p.hole + 2) as nat)),
                off_cmd(VmixProperty::Score(9, p.ind).selection()),
                color_cmd(VmixProperty::ScoreColor(9, p.ind).selection(), "3F334D"@ + "00"@),
            ]);
        } else {
            assert(cmds(r@) =~= cmds(mid) + Seq::<Seq<char>>::empty());
        }
        if self.visible_player {
            r
        } else {
            Vec::new()
        }
    }
}

proof fn lemma_steps_keep(p: NewPlayer, n: nat)
    ensures
        steps(p, n).visible_player == p.visible_player,
        steps(p, n).ind == p.ind,
    decreases n,
{
    if n > 0 {
        lemma_steps_keep(p, (n - 1) as nat);
        lemma_scored_keeps(steps(p, (n - 1) as nat));
    }
}


/// The calls that empty the fields of the first `n` holes of slot `ind`.
pub open spec fn dels_upto(ind: usize, n: nat) -> Seq<Seq<char>>
    decreases n,
{
    if n == 0 {
        seq![]
    } else {
        dels_upto(ind, (n - 1) as nat) + del_cmds(ind, (n - 1) as usize)
    }
}

/// The player after their scores were emptied: no hole in view, no shift, no
/// round score, the total of the rounds before (none in the first round), and
/// the position hidden.
pub open spec fn reset_state(p: NewPlayer) -> NewPlayer {
    NewPlayer {
        hole: 0,
        shift: 0,
        round_score: 0,
        total_score: if p.round_ind > 0 { before_round(p) as i16 } else { 0 },
        dnf: p.dnf || p.rounds@.len() < p.round_ind,
        pos_visible: false,
        ..p
    }
}

/// The calls of emptying the scores: the nine fields emptied, the total of the
/// rounds before, the position hidden, and the round score shown (after the
/// first round) or hidden.
pub open spec fn reset_cmds(p: NewPlayer) -> Seq<Seq<char>> {
    dels_upto(p.ind, 9) + seq![tot_cmd(p.ind, before_round(p))] + hide_pos_cmds(p.ind)
        + if p.round_ind > 0 { round_cmds(p.ind, 0) } else { seq![off_cmd(VmixProperty::RoundScore(p.ind).selection())] }
}

/// The player after the score of the hole last shown was taken back, before
/// any shifting: that hole in view, its score taken off the round and total.
pub open spec fn unscored(p: NewPlayer) -> NewPlayer {
    let h = (p.hole - 1) as usize;
    let s = cur_hole_score(p, h as int);
    NewPlayer { hole: h, round_score: (p.round_score - s) as i16, total_score: (p.total_score - s) as i16, ..p }
}

/// The player set up for shifting back: one more hole back, its score taken
/// off again.
pub open spec fn unscored_more(p: NewPlayer) -> NewPlayer {
    let q = unscored(p);
    let s = cur_hole_score(p, q.hole as int);
    NewPlayer { hole: (q.hole - 1) as usize, round_score: (q.round_score - s) as i16, total_score: (q.total_score - s) as i16, ..q }
}

/// Whether the score of the hole last shown can be taken back.
pub open spec fn revert_ok(p: NewPlayer) -> bool {
    p.hole > 0 ==> {
        let q = unscored(p);
        let s = cur_hole_score(p, q.hole as int);
        &&& i16::MIN <= p.round_score - s <= i16::MAX
        &&& i16::MIN <= p.total_score - s <= i16::MAX
        &&& q.hole > 8 ==> {
            &&& i16::MIN <= q.round_score - s <= i16::MAX
            &&& i16::MIN <= q.total_score - s <= i16::MAX
            &&& shift_ok(unscored_more(p), true)
        }
    }
}

/// The player after the score of the hole last shown was taken back: past the
/// ninth hole the scores are shifted back.
pub open spec fn reverted(p: NewPlayer) -> NewPlayer {
    if p.hole == 0 {
        p
    } else if unscored(p).hole > 8 {
        shifted(unscored_more(p), true)
    } else {
        unscored(p)
    }
}

/// The calls of taking back the score of the hole last shown: its field
/// emptied, then the shifted scores or the total (and the round score after
/// the first round).
pub open spec fn revert_cmds(p: NewPlayer) -> Seq<Seq<char>> {
    if p.hole == 0 {
        seq![]
    } else {
        let q = unscored(p);
        del_cmds(p.ind, q.hole) + if q.hole > 8 {
            shift_cmds(unscored_more(p), true)
        } else {
            seq![tot_cmd(p.ind, q.total_score as int)] + if p.round_ind > 0 { round_cmds(p.ind, q.round_score as int) } else { seq![] }
        }
    }
}

impl NewPlayer {
    /// Takes back the score of the hole last shown (see `reverted` and `revert_cmds`).
    #[verifier::rlimit(60)]
    pub fn revert_hole_score(&mut self) -> (r: Vec<String>)
        requires
            revert_ok(*old(self)),
        ensures
            *final(self) == reverted(*old(self)),
            cmds(r@) == revert_cmds(*old(self)),
    {
        let ghost p = *self;
        let mut r: Vec<String> = Vec::new();
        if self.hole > 0 {
            self.hole = self.hole - 1;
            let mut dels = self.del_score();
            r.append(&mut dels);
            let result = self.current_hole_score(self.hole);
            self.round_score = self.round_score - result;
            self.total_score = self.total_score - result;
            assert(*self == unscored(p));
            let ghost mid = r@;
            if self.hole > 8 {
                self.hole = self.hole - 1;
                self.round_score = self.round_score - result;
                self.total_score = self.total_score - result;
                assert(*self == unscored_more(p));
                let mut shifted_calls = self.shift_scores(true);
                r.append(&mut shifted_calls);
                assert(cmds(r@) =~= cmds(mid) + shift_cmds(unscored_more(p), true));
            } else {
                r.push(self.set_tot_score());
                if self.round_ind > 0 {
                    let mut round = self.set_round_score();
                    r.append(&mut round);
                }
                assert(cmds(r@) =~= cmds(mid) + (seq![tot_cmd(p.ind, unscored(p).total_score as int)]
                    + if p.round_ind > 0 { round_cmds(p.ind, unscored(p).round_score as int) } else { seq![] }));
            }
        }
        r
    }

    /// Empties the scores (see `reset_state` and `reset_cmds`).
    pub fn reset_scores(&mut self) -> (r: Vec<String>)
        requires
            before_ok(*old(self)),
        ensures
            *final(self) == reset_state(*old(self)),
            cmds(r@) == reset_cmds(*old(self)),
    {
        let ghost p = *self;
        let mut r: Vec<String> = Vec::new();
        let mut i: usize = 0;
        while i < 9
            invariant
                i <= 9,
                *self == (NewPlayer { hole: self.hole, ..p }),
                cmds(r@) == dels_upto(p.ind, i as nat),
            decreases 9 - i,
        {
            self.hole = i;
            let mut dels = self.del_score();
            let ghost before = r@;
            r.append(&mut dels);
            assert(cmds(r@) =~= cmds(before) + del_cmds(p.ind, i));
            i = i + 1;
        }
        self.hole = 0;
        self.shift = 0;
        self.round_score = 0;
        assert(before_ok(*self) && before_round(*self) == before_round(p));
        let before = self.score_before_round();
        self.total_score = before;
        r.push(self.set_tot_score());
        let mut hidden = self.hide_pos();
        r.append(&mut hidden);
        if self.round_ind > 0 {
            let mut round = self.set_round_score();
            r.append(&mut round);
        } else {
            self.total_score = 0;
            r.push(self.hide_round_score());
        }
        proof {
            assert(cmds(r@) =~= reset_cmds(p));
        }
        r
    }

    /// Moves to round `round_ind` and empties the scores.
    pub fn set_round(&mut self, round_ind: usize) -> (r: Vec<String>)
        requires
            before_ok(NewPlayer { round_ind, ..*old(self) }),
        ensures
            *final(self) == reset_state(NewPlayer { round_ind, ..*old(self) }),
            cmds(r@) == reset_cmds(NewPlayer { round_ind, ..*old(self) }),
    {
        self.round_ind = round_ind;
        self.reset_scores()
    }
}


/// The hot round image: shown for a player with the lowest round score of a
/// later round while the round is under way.
pub open spec fn hot_image(p: NewPlayer) -> Seq<char> {
    if p.hot_round && p.round_ind != 0 && p.hole != 0 && p.hole < 19 {
        "X:\\FLIPUP\\grafik\\fire.png"@
    } else {
        "X:\\FLIPUP\\grafik\\alpha.png"@
    }
}

/// The round score of a leaderboard row: nothing for a player without a
/// place, even before the round has a hole played.
pub open spec fn rs_text(p: NewPlayer, hidden: bool) -> Seq<char> {
    if p.lb_pos == 0 {
        Seq::empty()
    } else if hidden {
        "E"@
    } else {
        score_text(p.round_score as int)
    }
}

/// The total score of a leaderboard row: nothing for a player without a
/// place, even in the first round before a hole is played.
pub open spec fn ts_text(p: NewPlayer, hidden: bool) -> Seq<char> {
    if p.lb_pos == 0 {
        Seq::empty()
    } else if hidden && p.round_ind == 0 {
        "E"@
    } else {
        score_text(p.total_score as int)
    }
}

/// The holes played of a leaderboard row: nothing for a player without a
/// place, none before a hole is played.
pub open spec fn thru_text(p: NewPlayer, hidden: bool) -> Seq<char> {
    if p.lb_pos == 0 {
        Seq::empty()
    } else if hidden {
        "0"@
    } else {
        nat_to_dec(p.thru as nat)
    }
}

/// The calls of the leaderboard row of a player.
pub open spec fn lb_cmds(p: NewPlayer) -> Seq<Seq<char>> {
    let hide = p.thru == 0;
    let pos = p.position;
    seq![
        text_cmd(LeaderBoardProperty::Position { pos, lb_pos: p.lb_pos, tied: p.lb_even }.selection(), nat_to_dec(pos as nat)),
        text_cmd(LeaderBoardProperty::Name(pos).selection(), p.name@),
        image_cmd(LeaderBoardProperty::HotRound(pos).selection(), hot_image(p)),
        text_cmd(LeaderBoardProperty::RoundScore(pos).selection(), rs_text(p, hide)),
        on_cmd(LeaderBoardProperty::TotalScore { pos }.selection()),
        on_cmd(LeaderBoardProperty::TotalScoreTitle.selection()),
        text_cmd(LeaderBoardProperty::TotalScore { pos }.selection(), ts_text(p, hide)),
        text_cmd(LeaderBoardProperty::Move { pos }.selection(), move_text(p.rank)),
        image_cmd(LeaderBoardProperty::Arrow { pos }.selection(), arrow_of(p.rank)),
        text_cmd(LeaderBoardProperty::Thru(pos).selection(), thru_text(p, hide)),
    ]
}

impl NewPlayer {
    pub fn set_lb_pos(&self) -> (r: String)
        ensures
            r@ == text_cmd(LeaderBoardProperty::Position { pos: self.position, lb_pos: self.lb_pos, tied: self.lb_even }.selection(),
                nat_to_dec(self.position as nat)),
    {
        lb_text_call(
            usize_to_string(self.position as usize),
            LeaderBoardProperty::Position { pos: self.position, lb_pos: self.lb_pos, tied: self.lb_even },
        )
    }

    pub fn set_lb_name(&self) -> (r: String)
        ensures
            r@ == text_cmd(LeaderBoardProperty::Name(self.position).selection(), self.name@),
    {
        lb_text_call(self.name.clone(), LeaderBoardProperty::Name(self.position))
    }

    pub fn set_lb_hr(&self) -> (r: String)
        ensures
            r@ == image_cmd(LeaderBoardProperty::HotRound(self.position).selection(), hot_image(*self)),
    {
        let value = if self.hot_round && self.round_ind != 0 && self.hole != 0 && self.hole < 19 {
            "X:\\FLIPUP\\grafik\\fire.png"
        } else {
            "X:\\FLIPUP\\grafik\\alpha.png"
        };
        lb_image_call(String::from_str(value), LeaderBoardProperty::HotRound(self.position))
    }

    pub fn set_rs(&self, hidden: bool) -> (r: String)
        ensures
            r@ == text_cmd(LeaderBoardProperty::RoundScore(self.position).selection(), rs_text(*self, hidden)),
    {
        let value = if self.lb_pos == 0 {
            String::new()
        } else if hidden {
            String::from_str("E")
        } else {
            crate::text::fix_score(self.round_score as isize)
        };
        lb_text_call(value, LeaderBoardProperty::RoundScore(self.position))
    }

    pub fn set_ts(&self, hidden: bool) -> (r: Vec<String>)
        ensures
            cmds(r@) == seq![
                on_cmd(LeaderBoardProperty::TotalScore { pos: self.position }.selection()),
                on_cmd(LeaderBoardProperty::TotalScoreTitle.selection()),
                text_cmd(LeaderBoardProperty::TotalScore { pos: self.position }.selection(), ts_text(*self, hidden)),
            ],
    {
        let mut r: Vec<String> = Vec::new();
        r.push(lb_on_call(LeaderBoardProperty::TotalScore { pos: self.position }));
        r.push(lb_on_call(LeaderBoardProperty::TotalScoreTitle));
        let value = if self.lb_pos == 0 {
            String::new()
        } else if hidden && self.round_ind == 0 {
            String::from_str("E")
        } else {
            crate::text::fix_score(self.total_score as isize)
        };
        r.push(lb_text_call(value, LeaderBoardProperty::TotalScore { pos: self.position }));
        assert(cmds(r@) =~= seq![
            on_cmd(LeaderBoardProperty::TotalScore { pos: self.position }.selection()),
            on_cmd(LeaderBoardProperty::TotalScoreTitle.selection()),
            text_cmd(LeaderBoardProperty::TotalScore { pos: self.position }.selection(), ts_text(*self, hidden)),
        ]);
        r
    }

    pub fn set_moves(&self) -> (r: Vec<String>)
        ensures
            cmds(r@) == seq![
                text_cmd(LeaderBoardProperty::Move { pos: self.position }.selection(), move_text(self.rank)),
                image_cmd(LeaderBoardProperty::Arrow { pos: self.position }.selection(), arrow_of(self.rank)),
            ],
    {
        self.rank.get_tcps(self.position)
    }

    pub fn set_thru(&self, hidden: bool) -> (r: String)
        ensures
            r@ == text_cmd(LeaderBoardProperty::Thru(self.position).selection(), thru_text(*self, hidden)),
    {
        let value = if self.lb_pos == 0 {
            String::new()
        } else if hidden {
            String::from_str("0")
        } else {
            usize_to_string(self.thru as usize)
        };
        lb_text_call(value, LeaderBoardProperty::Thru(self.position))
    }

    /// The leaderboard row of the player (see `lb_cmds`); a player past the
    /// rounds they have is no longer shown on the leaderboard.
    pub fn set_lb(&mut self) -> (r: Vec<String>)
        ensures
            *final(self) == (NewPlayer { lb_shown: if old(self).round_ind >= old(self).rounds@.len() { false } else { old(self).lb_shown }, ..*old(self) }),
            cmds(r@) == lb_cmds(*old(self)),
    {
        self.check_if_allowed_to_visible();
        let ghost p = *self;
        assert(hot_image(p) == hot_image(*old(self)));
        assert(rs_text(p, p.thru == 0) == rs_text(*old(self), p.thru == 0));
        assert(ts_text(p, p.thru == 0) == ts_text(*old(self), p.thru == 0));
        assert(thru_text(p, p.thru == 0) == thru_text(*old(self), p.thru == 0));
        let hide = self.thru == 0;
        let mut r: Vec<String> = Vec::new();
        r.push(self.set_lb_pos());
        r.push(self.set_lb_name());
        r.push(self.set_lb_hr());
        r.push(self.set_rs(hide));
        let ghost first = r@;
        let mut ts = self.set_ts(hide);
        let ghost tsv = ts@;
        r.append(&mut ts);
        let mut moves = self.set_moves();
        let ghost mv = moves@;
        r.append(&mut moves);
        let last = self.set_thru(hide);
        let ghost lv = last@;
        let ghost before_last = r@;
        r.push(last);
        assert(cmds(r@) =~= cmds(before_last) + seq![lv]);
        assert(cmds(before_last) =~= cmds(first) + cmds(tsv) + cmds(mv));
        assert(cmds(r@) =~= lb_cmds(p));
        r
    }
}


/// A player of a division's leaderboard in a pool (what the logic reads).
#[derive(Clone, Debug)]
pub struct PoolLeaderboardPlayer {
    pub first_name: String,
    pub is_dnf: bool,
    pub is_dns: bool,
    pub last_name: String,
    pub player_id: String,
    pub results: Vec<SimpleResult>,
}

/// A division's leaderboard in a pool.
#[derive(Clone, Debug)]
pub struct PoolLeaderboardDivision {
    pub id: String,
    pub name: String,
    pub players: Vec<PoolLeaderboardPlayer>,
    pub type_: String,
}

/// An entry of a pool's leaderboard: a division, or of a kind not known.
#[derive(Clone, Debug)]
pub enum PoolLeaderboardDivisionCombined {
    Pld(PoolLeaderboardDivision),
    Unknown,
}

/// The state of a pool.
#[derive(Clone, Copy, Debug, PartialEq, Eq, Structural)]
pub enum PoolStatus {
    Closed,
    Prepare,
    Open,
    Completed,
}

/// A pool of a round.
#[derive(Clone, Debug)]
pub struct Pool {
    pub status: PoolStatus,
    pub leaderboard: Option<Vec<Option<PoolLeaderboardDivisionCombined>>>,
}

/// A round of an event.
#[derive(Clone, Debug)]
pub struct Round {
    pub pools: Vec<Pool>,
    pub id: String,
}

/// A division of an event.
#[derive(Clone, Debug)]
pub struct Division {
    pub id: String,
    pub name: String,
}

/// An event as the leaderboard query reports it.
#[derive(Clone, Debug)]
pub struct Event {
    pub rounds: Vec<Option<Round>>,
    pub divisions: Vec<Option<Division>>,
}

/// The rounds (results) of the players with the given id, in order.
pub open spec fn player_rounds(ps: Seq<PoolLeaderboardPlayer>, id: Seq<char>) -> Seq<Seq<SimpleResult>>
    decreases ps.len(),
{
    if ps.len() == 0 {
        seq![]
    } else {
        player_rounds(ps.drop_last(), id) + if ps.last().player_id@ == id { seq![ps.last().results@] } else { seq![] }
    }
}

/// The rounds of the player in the entries of the division with the given id.
pub open spec fn entries_rounds(es: Seq<Option<PoolLeaderboardDivisionCombined>>, div: Seq<char>, id: Seq<char>) -> Seq<Seq<SimpleResult>>
    decreases es.len(),
{
    if es.len() == 0 {
        seq![]
    } else {
        entries_rounds(es.drop_last(), div, id) + match es.last() {
            Some(PoolLeaderboardDivisionCombined::Pld(d)) => if d.id@ == div { player_rounds(d.players@, id) } else { seq![] },
            _ => seq![],
        }
    }
}

/// The rounds of the player in the pools.
pub open spec fn pools_rounds(ps: Seq<Pool>, div: Seq<char>, id: Seq<char>) -> Seq<Seq<SimpleResult>>
    decreases ps.len(),
{
    if ps.len() == 0 {
        seq![]
    } else {
        pools_rounds(ps.drop_last(), div, id) + entries_rounds(ps.last().leaderboard->0@, div, id)
    }
}

/// The rounds of the player in the rounds of the event.
pub open spec fn event_rounds(rs: Seq<Option<Round>>, div: Seq<char>, id: Seq<char>) -> Seq<Seq<SimpleResult>>
    decreases rs.len(),
{
    if rs.len() == 0 {
        seq![]
    } else {
        event_rounds(rs.drop_last(), div, id) + pools_rounds(rs.last()->0.pools@, div, id)
    }
}

/// Whether each pool has its leaderboard.
pub open spec fn pools_ready(ps: Seq<Pool>) -> bool {
    forall|i: int| 0 <= i < ps.len() ==> (#[trigger] ps[i]).leaderboard is Some
}

/// Whether every round of the event is there with the leaderboards of its pools.
pub open spec fn event_ready(ev: Event) -> bool {
    forall|r: int| 0 <= r < ev.rounds@.len() ==> ((#[trigger] ev.rounds@[r]) matches Some(round) && pools_ready(round.pools@))
}

/// The results of a list of rounds.
pub open spec fn rounds_view(v: Seq<PlayerRound>) -> Seq<Seq<SimpleResult>> {
    v.map_values(|r: PlayerRound| r.results@)
}

fn copy_results(v: &Vec<SimpleResult>) -> (r: Vec<SimpleResult>)
    ensures
        r@ == v@,
{
    let mut out: Vec<SimpleResult> = Vec::new();
    let mut i: usize = 0;
    while i < v.len()
        invariant
            i <= v@.len(),
            out@ == v@.take(i as int),
        decreases v@.len() - i,
    {
        out.push(v[i]);
        assert(out@ =~= v@.take(i + 1));
        i = i + 1;
    }
    assert(v@.take(v@.len() as int) =~= v@);
    out
}

fn add_player_rounds(out: &mut Vec<PlayerRound>, ps: &Vec<PoolLeaderboardPlayer>, id: &str)
    ensures
        rounds_view(final(out)@) == rounds_view(old(out)@) + player_rounds(ps@, id@),
{
    let ghost start = rounds_view(out@);
    let mut i: usize = 0;
    while i < ps.len()
        invariant
            i <= ps@.len(),
            rounds_view(out@) == start + player_rounds(ps@.take(i as int), id@),
        decreases ps@.len() - i,
    {
        assert(ps@.take(i + 1).drop_last() =~= ps@.take(i as int));
        let ghost before = out@;
        if crate::text::str_eq(ps[i].player_id.as_str(), id) {
            out.push(PlayerRound::new(copy_results(&ps[i].results)));
            assert(rounds_view(out@) =~= rounds_view(before) + seq![ps@[i as int].results@]);
        } else {
            assert(rounds_view(out@) =~= rounds_view(before) + Seq::<Seq<SimpleResult>>::empty());
        }
        i = i + 1;
    }
    assert(ps@.take(ps@.len() as int) =~= ps@);
}

fn add_entries_rounds(out: &mut Vec<PlayerRound>, es: &Vec<Option<PoolLeaderboardDivisionCombined>>, div: &str, id: &str)
    ensures
        rounds_view(final(out)@) == rounds_view(old(out)@) + entries_rounds(es@, div@, id@),
{
    let ghost start = rounds_view(out@);
    let mut i: usize = 0;
    while i < es.len()
        invariant
            i <= es@.len(),
            rounds_view(out@) == start + entries_rounds(es@.take(i as int), div@, id@),
        decreases es@.len() - i,
    {
        assert(es@.take(i + 1).drop_last() =~= es@.take(i as int));
        let ghost before = rounds_view(out@);
        match &es[i] {
            Some(PoolLeaderboardDivisionCombined::Pld(d)) => {
                if crate::text::str_eq(d.id.as_str(), div) {
                    add_player_rounds(out, &d.players, id);
                }
            },
            _ => {},
        }
        assert(rounds_view(out@) =~= before + match es@[i as int] {
            Some(PoolLeaderboardDivisionCombined::Pld(d)) => if d.id@ == div@ { player_rounds(d.players@, id@) } else { seq![] },
            _ => seq![],
        });
        i = i + 1;
    }
    assert(es@.take(es@.len() as int) =~= es@);
}

fn add_pools_rounds(out: &mut Vec<PlayerRound>, pools: &Vec<Pool>, div: &str, id: &str)
    requires
        pools_ready(pools@),
    ensures
        rounds_view(final(out)@) == rounds_view(old(out)@) + pools_rounds(pools@, div@, id@),
{
    let ghost start = rounds_view(out@);
    let mut i: usize = 0;
    while i < pools.len()
        invariant
            i <= pools@.len(),
            pools_ready(pools@),
            rounds_view(out@) == start + pools_rounds(pools@.take(i as int), div@, id@),
        decreases pools@.len() - i,
    {
        assert(pools@.take(i + 1).drop_last() =~= pools@.take(i as int));
        let ghost before = rounds_view(out@);
        match &pools[i].leaderboard {
            Some(es) => add_entries_rounds(out, es, div, id),
            None => {},
        }
        assert(rounds_view(out@) =~= before + entries_rounds(pools@[i as int].leaderboard->0@, div@, id@));
        i = i + 1;
    }
    assert(pools@.take(pools@.len() as int) =~= pools@);
}

impl NewPlayer {
    /// A player of the division with id `div_id`: their rounds are those the
    /// event's leaderboards list for them in that division, in order.
    pub fn new(
        id: String,
        f_name: String,
        l_name: String,
        event: &Event,
        div_id: &str,
        vmix_id: String,
        lb_vmix_id: String,
    ) -> (r: Self)
        requires
            event_ready(*event),
        ensures
            r.player_id@ == id@,
            r.name@ == f_name@ + " "@ + l_name@,
            r.first_name@ == f_name@,
            r.surname@ == l_name@,
            rounds_view(r.rounds@) == event_rounds(event.rounds@, div_id@, id@),
            r.vmix_id@ == vmix_id@,
            r.lb_vmix_id@ == lb_vmix_id@,
            r.rank == RankUpDown::Same,
            r.total_score == 0 && r.round_score == 0 && r.round_ind == 0,
            r.hole == 0 && r.ind == 0 && r.throws == 0 && r.shift == 0,
            !r.ob && r.position == 0 && !r.lb_even && !r.hot_round,
            r.lb_pos == 0 && r.old_pos == 0,
            r.pos_visible && r.lb_shown && !r.dnf && !r.first_scored,
            r.thru == 0 && r.visible_player,
    {
        let mut rounds: Vec<PlayerRound> = Vec::new();
        let mut i: usize = 0;
        while i < event.rounds.len()
            invariant
                i <= event.rounds@.len(),
                event_ready(*event),
                rounds_view(rounds@) == event_rounds(event.rounds@.take(i as int), div_id@, id@),
            decreases event.rounds@.len() - i,
        {
            assert(event.rounds@.take(i + 1).drop_last() =~= event.rounds@.take(i as int));
            assert(event.rounds@[i as int] is Some && pools_ready(event.rounds@[i as int]->0.pools@));
            match &event.rounds[i] {
                Some(round) => add_pools_rounds(&mut rounds, &round.pools, div_id, id.as_str()),
                None => {},
            }
            i = i + 1;
        }
        assert(event.rounds@.take(event.rounds@.len() as int) =~= event.rounds@);
        let name = join2(f_name.as_str(), " ").concat(l_name.as_str());
        proof {
            reveal_strlit(" ");
        }
        let mut p = NewPlayer::default();
        p.player_id = id;
        p.name = name;
        p.first_name = f_name;
        p.surname = l_name;
        p.rounds = rounds;
        p.vmix_id = vmix_id;
        p.lb_vmix_id = lb_vmix_id;
        p
    }
}

/// The divisions of an event that are there, in order.
pub open spec fn present_divisions(ds: Seq<Option<Division>>) -> Seq<Division>
    decreases ds.len(),
{
    if ds.len() == 0 {
        seq![]
    } else {
        present_divisions(ds.drop_last()) + match ds.last() {
            Some(d) => seq![d],
            None => seq![],
        }
    }
}

/// The leaderboard players of the division with the given id in the pools.
pub open spec fn division_players(pools: Seq<Pool>, div: Seq<char>) -> Seq<PoolLeaderboardPlayer>
    decreases pools.len(),
{
    if pools.len() == 0 {
        seq![]
    } else {
        division_players(pools.drop_last(), div) + entries_players(pools.last().leaderboard->0@, div)
    }
}

/// The leaderboard players of the division with the given id in the entries.
pub open spec fn entries_players(es: Seq<Option<PoolLeaderboardDivisionCombined>>, div: Seq<char>) -> Seq<PoolLeaderboardPlayer>
    decreases es.len(),
{
    if es.len() == 0 {
        seq![]
    } else {
        entries_players(es.drop_last(), div) + match es.last() {
            Some(PoolLeaderboardDivisionCombined::Pld(d)) => if d.id@ == div { d.players@ } else { seq![] },
            _ => seq![],
        }
    }
}

/// The event of the first browser controller, the division chosen and the
/// round on.
#[derive(Clone, Debug)]
pub struct RustHandler {
    pub chosen_division: String,
    pub event: Event,
    pub divisions: Vec<Division>,
    pub round_ind: usize,
    pub vmix_id: String,
    pub lb_vmix_id: String,
}

fn copy_division(d: &Division) -> (r: Division)
    ensures
        r.id@ == d.id@,
        r.name@ == d.name@,
{
    Division { id: d.id.clone(), name: d.name.clone() }
}

/// The views of a list of divisions.
pub open spec fn division_views(ds: Seq<Division>) -> Seq<(Seq<char>, Seq<char>)> {
    ds.map_values(|d: Division| (d.id@, d.name@))
}

impl RustHandler {
    /// The handler of an event: its divisions that are there, the first one
    /// chosen, the first round on.
    pub fn new(event: Event, vmix_id: String, lb_vmix_id: String) -> (r: Self)
        requires
            present_divisions(event.divisions@).len() > 0,
        ensures
            division_views(r.divisions@) == division_views(present_divisions(event.divisions@)),
            r.chosen_division@ == present_divisions(event.divisions@)[0].id@,
            r.round_ind == 0,
            r.event == event,
            r.vmix_id@ == vmix_id@,
            r.lb_vmix_id@ == lb_vmix_id@,
    {
        let mut divisions: Vec<Division> = Vec::new();
        let ghost ds = event.divisions@;
        let mut i: usize = 0;
        while i < event.divisions.len()
            invariant
                i <= ds.len(),
                ds == event.divisions@,
                division_views(divisions@) == division_views(present_divisions(ds.take(i as int))),
                divisions@.len() == present_divisions(ds.take(i as int)).len(),
            decreases ds.len() - i,
        {
            assert(ds.take(i + 1).drop_last() =~= ds.take(i as int));
            let ghost before = divisions@;
            match &event.divisions[i] {
                Some(d) => {
                    divisions.push(copy_division(d));
                    assert(division_views(divisions@) =~= division_views(before) + seq![(d.id@, d.name@)]);
                },
                None => {
                    assert(divisions@ =~= before);
                },
            }
            assert(division_views(present_divisions(ds.take(i + 1))) =~= division_views(present_divisions(ds.take(i as int))) + match ds[i as int] {
                Some(d) => seq![(d.id@, d.name@)],
                None => seq![],
            });
            i = i + 1;
        }
        assert(ds.take(ds.len() as int) =~= ds);
        assert(division_views(divisions@)[0] == division_views(present_divisions(ds))[0]);
        let chosen_division = divisions[0].id.clone();
        RustHandler { chosen_division, event, divisions, round_ind: 0, vmix_id, lb_vmix_id }
    }

    /// The divisions of the event.
    pub fn get_divisions(&self) -> (r: Vec<Division>)
        ensures
            division_views(r@) == division_views(self.divisions@),
    {
        let mut out: Vec<Division> = Vec::new();
        let mut i: usize = 0;
        while i < self.divisions.len()
            invariant
                i <= self.divisions@.len(),
                out@.len() == i,
                division_views(out@) == division_views(self.divisions@.take(i as int)),
            decreases self.divisions@.len() - i,
        {
            let ghost before = out@;
            out.push(copy_division(&self.divisions[i]));
            assert(division_views(out@) =~= division_views(before) + seq![(self.divisions@[i as int].id@, self.divisions@[i as int].name@)]);
            assert(division_views(out@) =~= division_views(self.divisions@.take(i + 1)));
            i = i + 1;
        }
        assert(self.divisions@.take(self.divisions@.len() as int) =~= self.divisions@);
        out
    }

    /// Chooses the division at index `ind`.
    pub fn set_chosen_by_ind(&mut self, ind: usize)
        requires
            ind < old(self).divisions@.len(),
        ensures
            final(self).chosen_division@ == old(self).divisions@[ind as int].id@,
            final(self).event == old(self).event,
            final(self).divisions@ == old(self).divisions@,
            final(self).round_ind == old(self).round_ind,
    {
        self.chosen_division = self.divisions[ind].id.clone();
    }
}


/// Whether `r` is the player made (see `NewPlayer::new`) for leaderboard
/// player `lp` of the division with id `div`.
pub open spec fn fresh_player(r: NewPlayer, lp: PoolLeaderboardPlayer, ev: Event, div: Seq<char>, vmix_id: Seq<char>, lb_vmix_id: Seq<char>) -> bool {
    &&& r.player_id@ == lp.player_id@
    &&& r.name@ == lp.first_name@ + " "@ + lp.last_name@
    &&& r.first_name@ == lp.first_name@
    &&& r.surname@ == lp.last_name@
    &&& rounds_view(r.rounds@) == event_rounds(ev.rounds@, div, lp.player_id@)
    &&& r.vmix_id@ == vmix_id
    &&& r.lb_vmix_id@ == lb_vmix_id
    &&& r.rank == RankUpDown::Same
    &&& r.total_score == 0 && r.round_score == 0 && r.round_ind == 0
    &&& r.hole == 0 && r.ind == 0 && r.throws == 0 && r.shift == 0
    &&& !r.ob && r.position == 0 && !r.lb_even && !r.hot_round
    &&& r.lb_pos == 0 && r.old_pos == 0
    &&& r.pos_visible && r.lb_shown && !r.dnf && !r.first_scored
    &&& r.thru == 0 && r.visible_player
}

/// Whether `out` holds, in order, the players made for `lps`.
pub open spec fn made_for(out: Seq<NewPlayer>, lps: Seq<PoolLeaderboardPlayer>, ev: Event, div: Seq<char>, vmix_id: Seq<char>, lb_vmix_id: Seq<char>) -> bool {
    &&& out.len() == lps.len()
    &&& forall|i: int| 0 <= i < out.len() ==> #[trigger] fresh_player(out[i], lps[i], ev, div, vmix_id, lb_vmix_id)
}

fn add_new_players(out: &mut Vec<NewPlayer>, ps: &Vec<PoolLeaderboardPlayer>, ev: &Event, div: &str, vmix_id: &str, lb_vmix_id: &str)
    requires
        event_ready(*ev),
    ensures
        final(out)@.len() == old(out)@.len() + ps@.len(),
        final(out)@.take(old(out)@.len() as int) == old(out)@,
        made_for(final(out)@.skip(old(out)@.len() as int), ps@, *ev, div@, vmix_id@, lb_vmix_id@),
{
    let ghost start = out@;
    let mut i: usize = 0;
    while i < ps.len()
        invariant
            i <= ps@.len(),
            event_ready(*ev),
            out@.len() == start.len() + i,
            out@.take(start.len() as int) == start,
            made_for(out@.skip(start.len() as int), ps@.take(i as int), *ev, div@, vmix_id@, lb_vmix_id@),
        decreases ps@.len() - i,
    {
        let lp = &ps[i];
        let p = NewPlayer::new(
            lp.player_id.clone(),
            lp.first_name.clone(),
            lp.last_name.clone(),
            ev,
            div,
            String::from_str(vmix_id),
            String::from_str(lb_vmix_id),
        );
        let ghost before = out@;
        out.push(p);
        assert(out@.take(start.len() as int) =~= start);
        assert(out@.skip(start.len() as int) =~= before.skip(start.len() as int).push(p));
        assert(ps@.take(i + 1) =~= ps@.take(i as int).push(ps@[i as int]));
        i = i + 1;
    }
    assert(ps@.take(ps@.len() as int) =~= ps@);
}

proof fn lemma_made_for_append(a: Seq<NewPlayer>, b: Seq<NewPlayer>, x: Seq<PoolLeaderboardPlayer>, y: Seq<PoolLeaderboardPlayer>, ev: Event, div: Seq<char>, v: Seq<char>, l: Seq<char>)
    requires
        made_for(a, x, ev, div, v, l),
        made_for(b, y, ev, div, v, l),
    ensures
        made_for(a + b, x + y, ev, div, v, l),
{
    assert forall|i: int| 0 <= i < (a + b).len() implies #[trigger] fresh_player((a + b)[i], (x + y)[i], ev, div, v, l) by {
        if i < a.len() {
            assert(fresh_player(a[i], x[i], ev, div, v, l));
        } else {
            assert(fresh_player(b[i - a.len()], y[i - a.len()], ev, div, v, l));
        }
    }
}

impl RustHandler {
    /// The players of the chosen division in the round on, in the order the
    /// leaderboards of its pools list them, each made for the event (see
    /// `NewPlayer::new`).
    pub fn get_players(&self) -> (r: Vec<NewPlayer>)
        requires
            event_ready(self.event),
            self.round_ind < self.event.rounds@.len(),
        ensures
            made_for(r@, division_players(self.event.rounds@[self.round_ind as int]->0.pools@, self.chosen_division@),
                self.event, self.chosen_division@, self.vmix_id@, self.lb_vmix_id@),
    {
        let ghost ev = self.event;
        let ghost div = self.chosen_division@;
        let round = match &self.event.rounds[self.round_ind] {
            Some(round) => round,
            None => {
                assert(false);
                return Vec::new();
            },
        };
        let pools = &round.pools;
        let mut out: Vec<NewPlayer> = Vec::new();
        let mut i: usize = 0;
        while i < pools.len()
            invariant
                i <= pools@.len(),
                event_ready(ev),
                ev == self.event,
                div == self.chosen_division@,
                pools_ready(pools@),
                made_for(out@, division_players(pools@.take(i as int), div), ev, div, self.vmix_id@, self.lb_vmix_id@),
            decreases pools@.len() - i,
        {
            assert(pools@.take(i + 1).drop_last() =~= pools@.take(i as int));
            let es = match &pools[i].leaderboard {
                Some(es) => es,
                None => {
                    assert(false);
                    return Vec::new();
                },
            };
            let mut j: usize = 0;
            let ghost mid = out@;
            while j < es.len()
                invariant
                    j <= es@.len(),
                    event_ready(ev),
                    ev == self.event,
                    div == self.chosen_division@,
                    mid.len() <= out@.len(),
                    out@.take(mid.len() as int) == mid,
                    made_for(out@.skip(mid.len() as int), entries_players(es@.take(j as int), div), ev, div, self.vmix_id@, self.lb_vmix_id@),
                decreases es@.len() - j,
            {
                assert(es@.take(j + 1).drop_last() =~= es@.take(j as int));
                let ghost before = out@;
                match &es[j] {
                    Some(PoolLeaderboardDivisionCombined::Pld(d)) => {
                        if crate::text::str_eq(d.id.as_str(), self.chosen_division.as_str()) {
                            add_new_players(&mut out, &d.players, &self.event, self.chosen_division.as_str(), self.vmix_id.as_str(), self.lb_vmix_id.as_str());
                            proof {
                                assert(out@.skip(mid.len() as int) =~= before.skip(mid.len() as int) + out@.skip(before.len() as int));
                                lemma_made_for_append(before.skip(mid.len() as int), out@.skip(before.len() as int),
                                    entries_players(es@.take(j as int), div), d.players@, ev, div, self.vmix_id@, self.lb_vmix_id@);
                                assert(out@.take(mid.len() as int) =~= before.take(mid.len() as int));
                            }
                        } else {
                            assert(entries_players(es@.take(j + 1), div) =~= entries_players(es@.take(j as int), div));
                        }
                    },
                    _ => {
                        assert(entries_players(es@.take(j + 1), div) =~= entries_players(es@.take(j as int), div));
                    },
                }
                j = j + 1;
            }
            proof {
                assert(es@.take(es@.len() as int) =~= es@);
                assert(out@ =~= mid + out@.skip(mid.len() as int));
                lemma_made_for_append(mid, out@.skip(mid.len() as int), division_players(pools@.take(i as int), div),
                    entries_players(es@, div), ev, div, self.vmix_id@, self.lb_vmix_id@);
            }
            i = i + 1;
        }
        assert(pools@.take(pools@.len() as int) =~= pools@);
        out
    }
}


/// Whether two players hold the same values (their texts and rounds alike).
pub open spec fn same_player(a: NewPlayer, b: NewPlayer) -> bool {
    &&& a.player_id@ == b.player_id@ && a.name@ == b.name@
    &&& a.first_name@ == b.first_name@ && a.surname@ == b.surname@
    &&& a.vmix_id@ == b.vmix_id@ && a.lb_vmix_id@ == b.lb_vmix_id@
    &&& rounds_view(a.rounds@) == rounds_view(b.rounds@)
    &&& a.rank == b.rank && a.total_score == b.total_score && a.round_score == b.round_score
    &&& a.round_ind == b.round_ind && a.hole == b.hole && a.ind == b.ind && a.throws == b.throws
    &&& a.shift == b.shift && a.ob == b.ob && a.position == b.position && a.lb_even == b.lb_even
    &&& a.hot_round == b.hot_round && a.lb_pos == b.lb_pos && a.old_pos == b.old_pos
    &&& a.pos_visible == b.pos_visible && a.lb_shown == b.lb_shown && a.dnf == b.dnf
    &&& a.first_scored == b.first_scored && a.thru == b.thru && a.visible_player == b.visible_player
}

proof fn lemma_rounds_sum_views(a: Seq<PlayerRound>, b: Seq<PlayerRound>, n: int)
    requires
        rounds_view(a) == rounds_view(b),
        n <= a.len(),
    ensures
        rounds_sum(a, n) == rounds_sum(b, n),
    decreases n,
{
    assert(rounds_view(a).len() == a.len() && rounds_view(b).len() == b.len());
    if n > 0 {
        assert(rounds_view(a)[n - 1] == a[n - 1].results@);
        assert(rounds_view(b)[n - 1] == b[n - 1].results@);
        lemma_rounds_sum_views(a, b, n - 1);
    }
}

/// Alike players give the same scores and calls on emptying their scores.
pub proof fn lemma_same_player_reset(a: NewPlayer, b: NewPlayer)
    requires
        same_player(a, b),
    ensures
        before_ok(a) == before_ok(b),
        before_round(a) == before_round(b),
        reset_cmds(a) == reset_cmds(b),
        same_player(reset_state(a), reset_state(b)),
{
    assert(rounds_view(a.rounds@).len() == a.rounds@.len() && rounds_view(b.rounds@).len() == b.rounds@.len());
    assert(leaves_count(a) == leaves_count(b));
    if !leaves_count(a) {
        lemma_rounds_sum_views(a.rounds@, b.rounds@, a.round_ind as int);
        assert forall|r: int| 0 <= r < a.round_ind implies #[trigger] sums_fit(a.rounds@[r].results@, 18) == sums_fit(b.rounds@[r].results@, 18) by {
            assert(rounds_view(a.rounds@)[r] == a.rounds@[r].results@);
            assert(rounds_view(b.rounds@)[r] == b.rounds@[r].results@);
        }
        assert forall|k: int| 0 <= k <= a.round_ind implies #[trigger] rounds_sum(a.rounds@, k) == rounds_sum(b.rounds@, k) by {
            lemma_rounds_sum_views(a.rounds@, b.rounds@, k);
        }
        let n = a.round_ind as int;
        if rounds_fit(a.rounds@, n) {
            assert forall|r: int| 0 <= r < n implies #[trigger] sums_fit(b.rounds@[r].results@, 18) by {
                assert(sums_fit(a.rounds@[r].results@, 18));
            }
            assert forall|k: int| 0 <= k <= n implies i16::MIN <= #[trigger] rounds_sum(b.rounds@, k) <= i16::MAX by {
                assert(rounds_sum(a.rounds@, k) == rounds_sum(b.rounds@, k));
            }
        }
        if rounds_fit(b.rounds@, n) {
            assert forall|r: int| 0 <= r < n implies #[trigger] sums_fit(a.rounds@[r].results@, 18) by {
                assert(sums_fit(b.rounds@[r].results@, 18));
            }
            assert forall|k: int| 0 <= k <= n implies i16::MIN <= #[trigger] rounds_sum(a.rounds@, k) <= i16::MAX by {
                assert(rounds_sum(a.rounds@, k) == rounds_sum(b.rounds@, k));
            }
        }
    }
}

impl PlayerRound {
    /// A copy of the round.
    pub fn duplicate(&self) -> (r: Self)
        ensures
            r.results@ == self.results@,
    {
        PlayerRound { results: copy_results(&self.results) }
    }
}

impl NewPlayer {
    /// A copy of the player.
    pub fn duplicate(&self) -> (r: Self)
        ensures
            same_player(r, *self),
    {
        let mut rounds: Vec<PlayerRound> = Vec::new();
        let mut i: usize = 0;
        while i < self.rounds.len()
            invariant
                i <= self.rounds@.len(),
                rounds_view(rounds@) == rounds_view(self.rounds@.take(i as int)),
                rounds@.len() == i,
            decreases self.rounds@.len() - i,
        {
            let ghost before = rounds@;
            rounds.push(self.rounds[i].duplicate());
            assert(rounds_view(rounds@) =~= rounds_view(before) + seq![self.rounds@[i as int].results@]);
            assert(rounds_view(rounds@) =~= rounds_view(self.rounds@.take(i + 1)));
            i = i + 1;
        }
        assert(self.rounds@.take(self.rounds@.len() as int) =~= self.rounds@);
        NewPlayer {
            player_id: self.player_id.clone(),
            name: self.name.clone(),
            first_name: self.first_name.clone(),
            surname: self.surname.clone(),
            rank: self.rank,
            total_score: self.total_score,
            round_score: self.round_score,
            round_ind: self.round_ind,
            rounds,
            hole: self.hole,
            ind: self.ind,
            vmix_id: self.vmix_id.clone(),
            throws: self.throws,
            shift: self.shift,
            ob: self.ob,
            position: self.position,
            lb_even: self.lb_even,
            hot_round: self.hot_round,
            lb_vmix_id: self.lb_vmix_id.clone(),
            lb_pos: self.lb_pos,
            old_pos: self.old_pos,
            pos_visible: self.pos_visible,
            lb_shown: self.lb_shown,
            dnf: self.dnf,
            first_scored: self.first_scored,
            thru: self.thru,
            visible_player: self.visible_player,
        }
    }
}


/// Where vMix is reached.
#[derive(Clone, Debug)]
pub struct Constants {
    pub ip: String,
}

impl Default for Constants {
    fn default() -> (r: Self)
        ensures
            r.ip@ == "192.168.120.135"@,
    {
        Constants { ip: String::from_str("192.168.120.135") }
    }
}

/// The four players of the scorecard, and the players of the division.
#[derive(Clone, Debug)]
pub struct ScoreCard {
    pub p1: NewPlayer,
    pub p2: NewPlayer,
    pub p3: NewPlayer,
    pub p4: NewPlayer,
    pub all_play_players: Vec<NewPlayer>,
    pub consts: Constants,
}

/// The player in slot `n` (one to four) of the scorecard.
pub open spec fn slot(sc: ScoreCard, n: usize) -> NewPlayer {
    if n == 1 {
        sc.p1
    } else if n == 2 {
        sc.p2
    } else if n == 3 {
        sc.p3
    } else {
        sc.p4
    }
}

/// The calls that name a player in their slot.
pub open spec fn name_cmds(p: NewPlayer) -> Seq<Seq<char>> {
    seq![
        text_cmd(VmixProperty::Name(p.ind).selection(), p.first_name@),
        text_cmd(VmixProperty::Surname(p.ind).selection(), p.surname@),
    ]
}

/// The player with the given id put in slot `num`, before their round is set.
pub open spec fn placed(p: NewPlayer, num: usize) -> NewPlayer {
    NewPlayer { ind: (num - 1) as usize, ..p }
}

/// The calls of putting the players with the given id in slot `num` for
/// round `rnd`: their name and their emptied scores, for each such player.
pub open spec fn set_player_cmds(ps: Seq<NewPlayer>, id: Seq<char>, num: usize, rnd: usize) -> Seq<Seq<char>>
    decreases ps.len(),
{
    if ps.len() == 0 {
        seq![]
    } else {
        set_player_cmds(ps.drop_last(), id, num, rnd) + if ps.last().player_id@ == id {
            name_cmds(placed(ps.last(), num)) + reset_cmds(NewPlayer { round_ind: rnd, ..placed(ps.last(), num) })
        } else {
            seq![]
        }
    }
}

/// The last player with the given id.
pub open spec fn last_with_id(ps: Seq<NewPlayer>, id: Seq<char>) -> Option<NewPlayer>
    decreases ps.len(),
{
    if ps.len() == 0 {
        None
    } else if ps.last().player_id@ == id {
        Some(ps.last())
    } else {
        last_with_id(ps.drop_last(), id)
    }
}

/// Whether each player with the given id can be set for round `rnd`.
pub open spec fn can_set_player(ps: Seq<NewPlayer>, id: Seq<char>, num: usize, rnd: usize) -> bool {
    forall|i: int| 0 <= i < ps.len() && (#[trigger] ps[i]).player_id@ == id ==> before_ok(NewPlayer { round_ind: rnd, ..placed(ps[i], num) })
}

impl Default for ScoreCard {
    fn default() -> (r: Self)
        ensures
            r.all_play_players@.len() == 0,
            r.p1.rounds@.len() == 0 && r.p2.rounds@.len() == 0 && r.p3.rounds@.len() == 0 && r.p4.rounds@.len() == 0,
            r.p1.hole == 0 && r.p2.hole == 0 && r.p3.hole == 0 && r.p4.hole == 0,
            r.p1.ind == 0 && r.p2.ind == 0 && r.p3.ind == 0 && r.p4.ind == 0,
            r.consts.ip@ == "192.168.120.135"@,
    {
        ScoreCard {
            p1: NewPlayer::default(),
            p2: NewPlayer::default(),
            p3: NewPlayer::default(),
            p4: NewPlayer::default(),
            all_play_players: Vec::new(),
            consts: Constants::default(),
        }
    }
}

/// A copy of a player in slot `num`, and the calls that name them and empty
/// their scores for round `rnd`.
fn placed_calls(p: &NewPlayer, player_num: usize, rnd: usize) -> (r: (NewPlayer, Vec<String>))
    requires
        player_num >= 1,
        before_ok(NewPlayer { round_ind: rnd, ..placed(*p, player_num) }),
    ensures
        same_player(r.0, placed(*p, player_num)),
        cmds(r.1@) == name_cmds(placed(*p, player_num)) + reset_cmds(NewPlayer { round_ind: rnd, ..placed(*p, player_num) }),
{
    let mut q = p.duplicate();
    q.ind = player_num - 1;
    let mut out = q.set_name();
    let mut fresh = q.duplicate();
    fresh.round_ind = rnd;
    proof {
        lemma_same_player_reset(fresh, NewPlayer { round_ind: rnd, ..placed(*p, player_num) });
    }
    let ghost names = out@;
    let mut reset = fresh.set_round(rnd);
    out.append(&mut reset);
    assert(cmds(out@) =~= cmds(names) + reset_cmds(NewPlayer { round_ind: rnd, ..placed(*p, player_num) }));
    (q, out)
}

impl ScoreCard {
    pub fn new() -> (r: Self)
        ensures
            r.all_play_players@.len() == 0,
            r.p1.rounds@.len() == 0 && r.p2.rounds@.len() == 0 && r.p3.rounds@.len() == 0 && r.p4.rounds@.len() == 0,
            r.consts.ip@ == "192.168.120.135"@,
    {
        ScoreCard::default()
    }

    /// Puts the player with the given id in slot `player_num` (one to four;
    /// the calls are made for other numbers too): their name and emptied
    /// scores for round `rnd` are sent, and the slot takes the player (the
    /// last with the id) as they were, in that slot.
    pub fn set_player(&mut self, player_num: usize, player_id: &str, rnd: usize) -> (r: Vec<String>)
        requires
            player_num >= 1,
            can_set_player(old(self).all_play_players@, player_id@, player_num, rnd),
        ensures
            cmds(r@) == set_player_cmds(old(self).all_play_players@, player_id@, player_num, rnd),
            final(self).all_play_players@ == old(self).all_play_players@,
            final(self).consts == old(self).consts,
            forall|n: usize| 1 <= n <= 4 ==> #[trigger] slot(*final(self), n) == slot(*old(self), n)
                || (n == player_num && last_with_id(old(self).all_play_players@, player_id@) is Some
                    && same_player(slot(*final(self), n), placed(last_with_id(old(self).all_play_players@, player_id@)->0, player_num))),
            (1 <= player_num <= 4 && last_with_id(old(self).all_play_players@, player_id@) is Some)
                ==> same_player(slot(*final(self), player_num), placed(last_with_id(old(self).all_play_players@, player_id@)->0, player_num)),
    {
        let ghost ps = self.all_play_players@;
        let ghost start = *self;
        let mut out: Vec<String> = Vec::new();
        let mut i: usize = 0;
        while i < self.all_play_players.len()
            invariant
                i <= ps.len(),
                player_num >= 1,
                self.all_play_players@ == ps,
                self.consts == start.consts,
                can_set_player(ps, player_id@, player_num, rnd),
                cmds(out@) == set_player_cmds(ps.take(i as int), player_id@, player_num, rnd),
                forall|n: usize| 1 <= n <= 4 ==> #[trigger] slot(*self, n) == slot(start, n)
                    || (n == player_num && last_with_id(ps.take(i as int), player_id@) is Some
                        && same_player(slot(*self, n), placed(last_with_id(ps.take(i as int), player_id@)->0, player_num))),
                (1 <= player_num <= 4 && last_with_id(ps.take(i as int), player_id@) is Some)
                    ==> same_player(slot(*self, player_num), placed(last_with_id(ps.take(i as int), player_id@)->0, player_num)),
            decreases ps.len() - i,
        {
            assert(ps.take(i + 1).drop_last() =~= ps.take(i as int));
            assert(ps.take(i + 1).last() == ps[i as int]);
            let ghost before = out@;
            if crate::text::str_eq(self.all_play_players[i].player_id.as_str(), player_id) {
                assert(last_with_id(ps.take(i + 1), player_id@) == Some(ps[i as int]));
                let (p, mut calls) = placed_calls(&self.all_play_players[i], player_num, rnd);
                out.append(&mut calls);
                assert(cmds(out@) =~= cmds(before) + (name_cmds(placed(ps[i as int], player_num))
                    + reset_cmds(NewPlayer { round_ind: rnd, ..placed(ps[i as int], player_num) })));
                let ghost pv = p;
                self.set_slot(player_num, p);
                assert(last_with_id(ps.take(i + 1), player_id@) == Some(ps[i as int]));
                assert forall|n: usize| 1 <= n <= 4 implies #[trigger] slot(*self, n) == slot(start, n)
                    || (n == player_num && last_with_id(ps.take(i + 1), player_id@) is Some
                        && same_player(slot(*self, n), placed(last_with_id(ps.take(i + 1), player_id@)->0, player_num))) by {
                    if n == player_num {
                        assert(slot(*self, n) == pv);
                    }
                }
            } else {
                assert(last_with_id(ps.take(i + 1), player_id@) == last_with_id(ps.take(i as int), player_id@));
                assert(cmds(out@) =~= cmds(before) + Seq::<Seq<char>>::empty());
            }
            i = i + 1;
        }
        assert(ps.take(ps.len() as int) =~= ps);
        out
    }

    fn set_slot(&mut self, n: usize, p: NewPlayer)
        ensures
            forall|m: usize| 1 <= m <= 4 ==> #[trigger] slot(*final(self), m) == if m == n { p } else { slot(*old(self), m) },
            final(self).all_play_players@ == old(self).all_play_players@,
            final(self).consts == old(self).consts,
    {
        if n == 1 {
            self.p1 = p;
        } else if n == 2 {
            self.p2 = p;
        } else if n == 3 {
            self.p3 = p;
        } else if n == 4 {
            self.p4 = p;
        }
    }

    /// Sets the total score of the player in slot `player_num`.
    pub fn set_total_score(&mut self, player_num: usize, new_score: i16)
        requires
            1 <= player_num <= 4,
        ensures
            slot(*final(self), player_num) == (NewPlayer { total_score: new_score, ..slot(*old(self), player_num) }),
            forall|n: usize| 1 <= n <= 4 && n != player_num ==> #[trigger] slot(*final(self), n) == slot(*old(self), n),
            final(self).all_play_players@ == old(self).all_play_players@,
    {
        if player_num == 1 {
            self.p1.total_score = new_score;
        } else if player_num == 2 {
            self.p2.total_score = new_score;
        } else if player_num == 3 {
            self.p3.total_score = new_score;
        } else {
            self.p4.total_score = new_score;
        }
    }

    /// Moves the four players to round `round`, emptying their scores.
    pub fn set_round(&mut self, round: usize) -> (r: Vec<String>)
        requires
            before_ok(NewPlayer { round_ind: round, ..old(self).p1 }),
            before_ok(NewPlayer { round_ind: round, ..old(self).p2 }),
            before_ok(NewPlayer { round_ind: round, ..old(self).p3 }),
            before_ok(NewPlayer { round_ind: round, ..old(self).p4 }),
        ensures
            final(self).p1 == reset_state(NewPlayer { round_ind: round, ..old(self).p1 }),
            final(self).p2 == reset_state(NewPlayer { round_ind: round, ..old(self).p2 }),
            final(self).p3 == reset_state(NewPlayer { round_ind: round, ..old(self).p3 }),
            final(self).p4 == reset_state(NewPlayer { round_ind: round, ..old(self).p4 }),
            cmds(r@) == reset_cmds(NewPlayer { round_ind: round, ..old(self).p1 }) + reset_cmds(NewPlayer { round_ind: round, ..old(self).p2 })
                + reset_cmds(NewPlayer { round_ind: round, ..old(self).p3 }) + reset_cmds(NewPlayer { round_ind: round, ..old(self).p4 }),
            final(self).all_play_players@ == old(self).all_play_players@,
            final(self).consts == old(self).consts,
    {
        let mut r = self.p1.set_round(round);
        let mut b = self.p2.set_round(round);
        let mut c = self.p3.set_round(round);
        let mut d = self.p4.set_round(round);
        let ghost (rv, bv, cv, dv) = (r@, b@, c@, d@);
        r.append(&mut b);
        r.append(&mut c);
        r.append(&mut d);
        assert(cmds(r@) =~= cmds(rv) + cmds(bv) + cmds(cv) + cmds(dv));
        r
    }
}


/// The first browser controller: the event's divisions and players, the
/// scorecard, the player in focus, the round on, and the hole the
/// leaderboard counts through.
#[derive(Clone, Debug)]
pub struct MyApp {
    pub all_divs: Vec<PoolLeaderboardDivision>,
    pub score_card: ScoreCard,
    pub selected_div_ind: usize,
    pub selected_div: String,
    pub foc_play_ind: usize,
    pub consts: Constants,
    pub event_id: String,
    pub pools: Vec<Pool>,
    pub handler: Option<RustHandler>,
    pub available_players: Vec<NewPlayer>,
    pub round_ind: usize,
    pub lb_div_ind: usize,
    pub lb_thru: usize,
}

impl Default for MyApp {
    fn default() -> (r: Self)
        ensures
            r.all_divs@.len() == 0,
            r.score_card.all_play_players@.len() == 0,
            r.selected_div_ind == 0,
            r.selected_div@ == "cd094fcf-76c7-471e-bfe3-be3d5892bd81"@,
            r.foc_play_ind == 0,
            r.consts.ip@ == "192.168.120.135"@,
            r.event_id@ == "75cceb0e-5a1d-4fba-a5c8-f2ff95f84495"@,
            r.pools@.len() == 0,
            r.handler is None,
            r.available_players@.len() == 0,
            r.round_ind == 0 && r.lb_div_ind == 0 && r.lb_thru == 0,
    {
        MyApp {
            all_divs: Vec::new(),
            score_card: ScoreCard::default(),
            selected_div_ind: 0,
            selected_div: String::from_str("cd094fcf-76c7-471e-bfe3-be3d5892bd81"),
            foc_play_ind: 0,
            consts: Constants::default(),
            event_id: String::from_str("75cceb0e-5a1d-4fba-a5c8-f2ff95f84495"),
            pools: Vec::new(),
            handler: None,
            available_players: Vec::new(),
            round_ind: 0,
            lb_div_ind: 0,
            lb_thru: 0,
        }
    }
}

/// The slot of the player in focus: the one given, the first for others.
pub open spec fn focus_slot(foc: usize) -> usize {
    if foc <= 3 { (foc + 1) as usize } else { 1 }
}

/// The player in focus.
pub open spec fn focused(app: MyApp) -> NewPlayer {
    slot(app.score_card, focus_slot(app.foc_play_ind))
}

/// Whether `b` is `a` with the player in focus replaced by `q`.
pub open spec fn with_focused(a: MyApp, b: MyApp, q: NewPlayer) -> bool {
    &&& b == (MyApp { score_card: b.score_card, ..a })
    &&& b.score_card.all_play_players == a.score_card.all_play_players
    &&& b.score_card.consts == a.score_card.consts
    &&& forall|n: usize| 1 <= n <= 4 ==> #[trigger] slot(b.score_card, n) == if n == focus_slot(a.foc_play_ind) { q } else { slot(a.score_card, n) }
}

/// The calls of scoring the hole in view of the player in focus: their
/// position hidden, then the hole scored (up to the eighth) or the scores
/// shifted (up to the eighteenth); none past that.
pub open spec fn increase_cmds(p: NewPlayer) -> Seq<Seq<char>> {
    if p.hole <= 17 {
        hide_pos_cmds(p.ind) + if p.hole <= 7 { score_cmds(NewPlayer { pos_visible: false, ..p }) } else { shift_cmds(NewPlayer { pos_visible: false, ..p }, false) }
    } else {
        seq![]
    }
}

/// The player in focus after scoring the hole in view (see `increase_cmds`).
pub open spec fn increased(p: NewPlayer) -> NewPlayer {
    let q = NewPlayer { pos_visible: false, ..p };
    if p.hole <= 17 {
        if p.hole <= 7 { scored(q) } else { shifted(q, false) }
    } else {
        q
    }
}

/// Whether the hole in view of a player can be scored (see `increase_cmds`).
pub open spec fn increase_ok(p: NewPlayer) -> bool {
    let q = NewPlayer { pos_visible: false, ..p };
    p.hole <= 17 ==> if p.hole <= 7 { score_ok(q) } else { shift_ok(q, false) }
}

/// The calls that empty leaderboard row `pos`.
pub open spec fn blank_lb_cmds(pos: u16) -> Seq<Seq<char>> {
    seq![
        text_cmd(LeaderBoardProperty::Position { pos, lb_pos: 0, tied: false }.selection(), nat_to_dec(pos as nat)),
        text_cmd(LeaderBoardProperty::Name(pos).selection(), Seq::empty()),
        image_cmd(LeaderBoardProperty::HotRound(pos).selection(), "X:\\FLIPUP\\grafik\\alpha.png"@),
        text_cmd(LeaderBoardProperty::RoundScore(pos).selection(), Seq::empty()),
        on_cmd(LeaderBoardProperty::TotalScore { pos }.selection()),
        on_cmd(LeaderBoardProperty::TotalScoreTitle.selection()),
        text_cmd(LeaderBoardProperty::TotalScore { pos }.selection(), Seq::empty()),
        text_cmd(LeaderBoardProperty::Move { pos }.selection(), Seq::empty()),
        image_cmd(LeaderBoardProperty::Arrow { pos }.selection(), "x:\\FLIPUP\\grafik\\alpha.png"@),
        text_cmd(LeaderBoardProperty::Thru(pos).selection(), Seq::empty()),
    ]
}

/// The calls that empty the leaderboard rows from zero to `idx`.
pub open spec fn clear_cmds(idx: nat) -> Seq<Seq<char>>
    decreases idx,
{
    if idx == 0 {
        blank_lb_cmds(0)
    } else {
        clear_cmds((idx - 1) as nat) + blank_lb_cmds(idx as u16)
    }
}

impl MyApp {
    fn get_focused(&mut self) -> (r: &mut NewPlayer)
        ensures
            *r == focused(*old(self)),
            with_focused(*old(self), *final(self), *final(r)),
    {
        match self.foc_play_ind {
            0 => &mut self.score_card.p1,
            1 => &mut self.score_card.p2,
            2 => &mut self.score_card.p3,
            3 => &mut self.score_card.p4,
            _ => &mut self.score_card.p1,
        }
    }
}


/// The hole index every scorecard player has reached.
pub open spec fn min_hole(sc: ScoreCard) -> usize {
    let a = if sc.p1.hole <= sc.p2.hole { sc.p1.hole } else { sc.p2.hole };
    let b = if a <= sc.p3.hole { a } else { sc.p3.hole };
    if b <= sc.p4.hole { b } else { sc.p4.hole }
}

impl MyApp {
    pub fn new() -> (r: Self)
        ensures
            r.score_card.all_play_players@.len() == 0,
            r.handler is None,
            r.foc_play_ind == 0 && r.round_ind == 0 && r.lb_thru == 0,
    {
        MyApp::default()
    }

    /// Sets where vMix is reached.
    pub fn set_ip(&mut self, ip: String)
        ensures
            final(self).consts.ip@ == ip@,
            final(self).score_card.consts.ip@ == ip@,
            final(self).score_card.all_play_players == old(self).score_card.all_play_players,
    {
        self.consts.ip = ip.clone();
        self.score_card.consts.ip = ip;
    }

    /// Puts the player of slot `idx + 1` in focus.
    pub fn set_foc(&mut self, idx: usize)
        ensures
            *final(self) == (MyApp { foc_play_ind: idx, ..*old(self) }),
    {
        self.foc_play_ind = idx;
    }

    pub fn set_event_id(&mut self, event_id: String)
        ensures
            *final(self) == (MyApp { event_id, ..*old(self) }),
    {
        self.event_id = event_id;
    }

    /// Scores the hole in view of the player in focus (see `increase_cmds`).
    pub fn increase_score(&mut self) -> (r: Vec<String>)
        requires
            increase_ok(focused(*old(self))),
        ensures
            with_focused(*old(self), *final(self), increased(focused(*old(self)))),
            cmds(r@) == increase_cmds(focused(*old(self))),
    {
        let p = self.get_focused();
        let hole = p.hole;
        let mut out = p.hide_pos();
        let ghost hidden = out@;
        if hole <= 17 {
            if hole <= 7 {
                let mut more = p.set_hole_score();
                out.append(&mut more);
            } else {
                let mut more = p.shift_scores(false);
                out.append(&mut more);
            }
            assert(cmds(out@) =~= cmds(hidden) + cmds(out@.skip(hidden.len() as int)));
            out
        } else {
            Vec::new()
        }
    }

    pub fn show_pos(&mut self) -> (r: Vec<String>)
        ensures
            with_focused(*old(self), *final(self), NewPlayer { pos_visible: true, ..focused(*old(self)) }),
            cmds(r@) == show_pos_cmds(focused(*old(self)).ind),
    {
        self.get_focused().show_pos()
    }

    pub fn hide_pos(&mut self) -> (r: Vec<String>)
        ensures
            with_focused(*old(self), *final(self), NewPlayer { pos_visible: false, ..focused(*old(self)) }),
            cmds(r@) == hide_pos_cmds(focused(*old(self)).ind),
    {
        self.get_focused().hide_pos()
    }

    pub fn toggle_pos(&mut self) -> (r: Vec<String>)
        ensures
            with_focused(*old(self), *final(self), NewPlayer { pos_visible: !focused(*old(self)).pos_visible, ..focused(*old(self)) }),
            cmds(r@) == if focused(*old(self)).pos_visible { hide_pos_cmds(focused(*old(self)).ind) } else { show_pos_cmds(focused(*old(self)).ind) },
    {
        self.get_focused().toggle_pos()
    }

    /// Shows the positions of the four players.
    pub fn show_all_pos(&mut self) -> (r: Vec<String>)
        ensures
            final(self).score_card.p1 == (NewPlayer { pos_visible: true, ..old(self).score_card.p1 }),
            final(self).score_card.p2 == (NewPlayer { pos_visible: true, ..old(self).score_card.p2 }),
            final(self).score_card.p3 == (NewPlayer { pos_visible: true, ..old(self).score_card.p3 }),
            final(self).score_card.p4 == (NewPlayer { pos_visible: true, ..old(self).score_card.p4 }),
            final(self).score_card.all_play_players == old(self).score_card.all_play_players,
            cmds(r@) == show_pos_cmds(old(self).score_card.p1.ind) + show_pos_cmds(old(self).score_card.p2.ind)
                + show_pos_cmds(old(self).score_card.p3.ind) + show_pos_cmds(old(self).score_card.p4.ind),
    {
        let mut r = self.score_card.p1.show_pos();
        let mut b = self.score_card.p2.show_pos();
        let mut c = self.score_card.p3.show_pos();
        let mut d = self.score_card.p4.show_pos();
        let ghost (rv, bv, cv, dv) = (r@, b@, c@, d@);
        r.append(&mut b);
        r.append(&mut c);
        r.append(&mut d);
        assert(cmds(r@) =~= cmds(rv) + cmds(bv) + cmds(cv) + cmds(dv));
        r
    }

    /// Hides the positions of the four players.
    pub fn hide_all_pos(&mut self) -> (r: Vec<String>)
        ensures
            final(self).score_card.p1 == (NewPlayer { pos_visible: false, ..old(self).score_card.p1 }),
            final(self).score_card.p2 == (NewPlayer { pos_visible: false, ..old(self).score_card.p2 }),
            final(self).score_card.p3 == (NewPlayer { pos_visible: false, ..old(self).score_card.p3 }),
            final(self).score_card.p4 == (NewPlayer { pos_visible: false, ..old(self).score_card.p4 }),
            final(self).score_card.all_play_players == old(self).score_card.all_play_players,
            cmds(r@) == hide_pos_cmds(old(self).score_card.p1.ind) + hide_pos_cmds(old(self).score_card.p2.ind)
                + hide_pos_cmds(old(self).score_card.p3.ind) + hide_pos_cmds(old(self).score_card.p4.ind),
    {
        let mut r = self.score_card.p1.hide_pos();
        let mut b = self.score_card.p2.hide_pos();
        let mut c = self.score_card.p3.hide_pos();
        let mut d = self.score_card.p4.hide_pos();
        let ghost (rv, bv, cv, dv) = (r@, b@, c@, d@);
        r.append(&mut b);
        r.append(&mut c);
        r.append(&mut d);
        assert(cmds(r@) =~= cmds(rv) + cmds(bv) + cmds(cv) + cmds(dv));
        r
    }

    /// Plays the clip of the player in focus (see `NewPlayer::start_score_anim`),
    /// where they are not past the last hole.
    pub fn play_animation(&mut self, pan: String) -> (r: Vec<String>)
        ensures
            focused(*old(self)).hole <= 17 ==> with_focused(*old(self), *final(self), NewPlayer { ob: false, ..focused(*old(self)) })
                && cmds(r@) == seq![
                    "FUNCTION "@ + "OverlayInput4Off"@,
                    "FUNCTION "@ + "SetPanX"@ + " Input="@ + ("SelectedName="@ + cur_mov(focused(*old(self)))) + "&Value="@ + ("Value="@ + pan@),
                    "FUNCTION "@ + "OverlayInput4"@ + " Input="@ + cur_mov(focused(*old(self))),
                ],
            focused(*old(self)).hole > 17 ==> *final(self) == *old(self) && r@.len() == 0,
    {
        if self.focused_hole() <= 17 {
            self.get_focused().start_score_anim(pan)
        } else {
            Vec::new()
        }
    }

    fn focused_hole(&self) -> (r: usize)
        ensures
            r == focused(*self).hole,
    {
        match self.foc_play_ind {
            0 => self.score_card.p1.hole,
            1 => self.score_card.p2.hole,
            2 => self.score_card.p3.hole,
            3 => self.score_card.p4.hole,
            _ => self.score_card.p1.hole,
        }
    }

    /// Plays the out-of-bounds clip of the player in focus.
    pub fn ob_anim(&mut self, pan: String) -> (r: Vec<String>)
        ensures
            with_focused(*old(self), *final(self), NewPlayer { ob: false, ..focused(*old(self)) }),
            cmds(r@) == seq![
                "FUNCTION "@ + "OverlayInput4Off"@,
                "FUNCTION "@ + "SetPanX"@ + " Input="@ + ("SelectedName="@ + "50 ob.mov"@) + "&Value="@ + ("Value="@ + pan@),
                "FUNCTION "@ + "OverlayInput4"@ + " Input="@ + "50 ob.mov"@,
            ],
    {
        let p = self.get_focused();
        p.ob = true;
        p.start_score_anim(pan)
    }

    /// Takes back the score of the hole last shown of the player in focus.
    pub fn revert_score(&mut self) -> (r: Vec<String>)
        requires
            revert_ok(focused(*old(self))),
        ensures
            with_focused(*old(self), *final(self), reverted(focused(*old(self)))),
            cmds(r@) == revert_cmds(focused(*old(self))),
    {
        self.get_focused().revert_hole_score()
    }

    /// Empties the scores of the player in focus; the leaderboard counts from
    /// the start.
    pub fn reset_score(&mut self) -> (r: Vec<String>)
        requires
            before_ok(focused(*old(self))),
        ensures
            with_focused(MyApp { lb_thru: 0, ..*old(self) }, *final(self), reset_state(focused(*old(self)))),
            cmds(r@) == reset_cmds(focused(*old(self))),
    {
        self.lb_thru = 0;
        self.get_focused().reset_scores()
    }

    /// The name of the player in focus.
    pub fn get_foc_p_name(&self) -> (r: String)
        ensures
            r@ == focused(*self).name@,
    {
        match self.foc_play_ind {
            0 => self.score_card.p1.name.clone(),
            1 => self.score_card.p2.name.clone(),
            2 => self.score_card.p3.name.clone(),
            3 => self.score_card.p4.name.clone(),
            _ => self.score_card.p1.name.clone(),
        }
    }

    /// One more throw for the player in focus.
    pub fn increase_throw(&mut self) -> (r: String)
        requires
            focused(*old(self)).throws < u8::MAX,
        ensures
            with_focused(*old(self), *final(self), NewPlayer { throws: (focused(*old(self)).throws + 1) as u8, ..focused(*old(self)) }),
            r@ == throw_cmd(focused(*old(self)).ind, (focused(*old(self)).throws + 1) as u8),
    {
        let p = self.get_focused();
        p.throws = p.throws + 1;
        p.set_throw()
    }

    /// One throw less for the player in focus.
    pub fn decrease_throw(&mut self) -> (r: String)
        requires
            focused(*old(self)).throws > 0,
        ensures
            with_focused(*old(self), *final(self), NewPlayer { throws: (focused(*old(self)).throws - 1) as u8, ..focused(*old(self)) }),
            r@ == throw_cmd(focused(*old(self)).ind, (focused(*old(self)).throws - 1) as u8),
    {
        let p = self.get_focused();
        p.throws = p.throws - 1;
        p.set_throw()
    }

    /// The names of the four players.
    pub fn get_focused_player_names(&self) -> (r: Vec<String>)
        ensures
            r@.map_values(|s: String| s@) == seq![self.score_card.p1.name@, self.score_card.p2.name@, self.score_card.p3.name@, self.score_card.p4.name@],
    {
        let mut r: Vec<String> = Vec::new();
        r.push(self.score_card.p1.name.clone());
        r.push(self.score_card.p2.name.clone());
        r.push(self.score_card.p3.name.clone());
        r.push(self.score_card.p4.name.clone());
        assert(r@.map_values(|s: String| s@) =~= seq![self.score_card.p1.name@, self.score_card.p2.name@, self.score_card.p3.name@, self.score_card.p4.name@]);
        r
    }

    /// The leaderboard counts through the hole every scorecard player has reached.
    fn set_lb_thru(&mut self)
        ensures
            *final(self) == (MyApp { lb_thru: min_hole(old(self).score_card), ..*old(self) }),
    {
        let mut m = self.score_card.p1.hole;
        if self.score_card.p2.hole < m {
            m = self.score_card.p2.hole;
        }
        if self.score_card.p3.hole < m {
            m = self.score_card.p3.hole;
        }
        if self.score_card.p4.hole < m {
            m = self.score_card.p4.hole;
        }
        self.lb_thru = m;
    }

    /// The hole the leaderboard counts through, from one (recounted first
    /// where asked).
    pub fn get_hole(&mut self, check_thru: bool) -> (r: usize)
        requires
            (if check_thru { min_hole(old(self).score_card) } else { old(self).lb_thru }) < usize::MAX,
        ensures
            *final(self) == (MyApp { lb_thru: if check_thru { min_hole(old(self).score_card) } else { old(self).lb_thru }, ..*old(self) }),
            r == final(self).lb_thru + 1,
    {
        if check_thru {
            self.set_lb_thru();
        }
        self.lb_thru + 1
    }

    /// The hole in view of the player in focus, from one.
    pub fn focused_player_hole(&mut self) -> (r: usize)
        requires
            focused(*old(self)).hole < usize::MAX,
        ensures
            *final(self) == *old(self),
            r == focused(*old(self)).hole + 1,
    {
        self.focused_hole() + 1
    }

    pub fn get_hole_js(&self) -> (r: usize)
        requires
            self.lb_thru < usize::MAX,
        ensures
            r == self.lb_thru + 1,
    {
        self.lb_thru + 1
    }

    pub fn get_round(&self) -> (r: usize)
        ensures
            r == self.round_ind,
    {
        self.round_ind
    }

    /// Moves to round `idx`: the leaderboard counts from the start, and the
    /// four players' scores are emptied.
    pub fn set_round(&mut self, idx: usize) -> (r: Vec<String>)
        requires
            before_ok(NewPlayer { round_ind: idx, ..old(self).score_card.p1 }),
            before_ok(NewPlayer { round_ind: idx, ..old(self).score_card.p2 }),
            before_ok(NewPlayer { round_ind: idx, ..old(self).score_card.p3 }),
            before_ok(NewPlayer { round_ind: idx, ..old(self).score_card.p4 }),
        ensures
            final(self).round_ind == idx,
            final(self).lb_thru == 0,
            final(self).score_card.p1 == reset_state(NewPlayer { round_ind: idx, ..old(self).score_card.p1 }),
            final(self).score_card.p2 == reset_state(NewPlayer { round_ind: idx, ..old(self).score_card.p2 }),
            final(self).score_card.p3 == reset_state(NewPlayer { round_ind: idx, ..old(self).score_card.p3 }),
            final(self).score_card.p4 == reset_state(NewPlayer { round_ind: idx, ..old(self).score_card.p4 }),
            cmds(r@) == reset_cmds(NewPlayer { round_ind: idx, ..old(self).score_card.p1 }) + reset_cmds(NewPlayer { round_ind: idx, ..old(self).score_card.p2 })
                + reset_cmds(NewPlayer { round_ind: idx, ..old(self).score_card.p3 }) + reset_cmds(NewPlayer { round_ind: idx, ..old(self).score_card.p4 }),
    {
        self.round_ind = idx;
        self.lb_thru = 0;
        self.score_card.set_round(idx)
    }

    /// The number of rounds of the player in focus.
    pub fn get_rounds(&mut self) -> (r: usize)
        ensures
            *final(self) == *old(self),
            r == focused(*old(self)).rounds@.len(),
    {
        match self.foc_play_ind {
            0 => self.score_card.p1.rounds.len(),
            1 => self.score_card.p2.rounds.len(),
            2 => self.score_card.p3.rounds.len(),
            3 => self.score_card.p4.rounds.len(),
            _ => self.score_card.p1.rounds.len(),
        }
    }

    /// The calls that empty the leaderboard rows from zero to `idx`.
    pub fn clear_lb(idx: u16) -> (r: Vec<String>)
        ensures
            cmds(r@) == clear_cmds(idx as nat),
    {
        let mut new_player = NewPlayer::default();
        new_player.lb_vmix_id = String::from_str("2ef7178b-61ab-445c-9bbd-2f1c2c781e86");
        let mut r: Vec<String> = Vec::new();
        let mut i: u16 = 0;
        loop
            invariant_except_break
                i <= idx,
                new_player.name@ == Seq::<char>::empty(),
                new_player.lb_pos == 0 && !new_player.lb_even && !new_player.hot_round,
                new_player.rank == RankUpDown::Same && new_player.thru == 0,
                i == 0 ==> r@.len() == 0,
                i > 0 ==> cmds(r@) == clear_cmds((i - 1) as nat),
            ensures
                cmds(r@) == clear_cmds(idx as nat),
            decreases idx - i,
        {
            new_player.position = i;
            let ghost before = r@;
            let mut row = new_player.set_lb();
            proof {
                reveal_strlit("");
            }
            assert(lb_cmds(NewPlayer { position: i, ..new_player }) =~= blank_lb_cmds(i));
            r.append(&mut row);
            assert(cmds(r@) =~= cmds(before) + blank_lb_cmds(i));
            if i == idx {
                break;
            }
            i = i + 1;
        }
        r
    }
}


/// The total a player is ordered by on the leaderboard: players who did not
/// finish go last.
pub open spec fn board_key(p: NewPlayer) -> int {
    if !p.dnf { p.total_score as int } else { i16::MAX as int }
}

impl SortKey for NewPlayer {
    open spec fn le_spec(&self, other: &Self) -> bool {
        board_key(*self) <= board_key(*other)
    }

    proof fn lemma_le_total(a: &Self, b: &Self) {
    }

    proof fn lemma_le_transitive(a: &Self, b: &Self, c: &Self) {
    }

    fn le(&self, other: &Self) -> (r: bool) {
        let a: i16 = if !self.dnf { self.total_score } else { i16::MAX };
        let b: i16 = if !other.dnf { other.total_score } else { i16::MAX };
        a <= b
    }
}

/// The place of row `i` of the ordered players: the row number, or the place
/// of the row before where the totals are equal; the last row takes the
/// number of rows unless it shares the place before.
pub open spec fn lb_place(s: Seq<NewPlayer>, i: int) -> int
    decreases i,
{
    if i <= 0 {
        if s.len() > 1 { 1 } else { s.len() as int }
    } else if i + 1 < s.len() {
        if s[i].total_score != s[i - 1].total_score { i + 1 } else { lb_place(s, i - 1) }
    } else {
        if s[i].total_score == s[i - 1].total_score { lb_place(s, i - 1) } else { s.len() as int }
    }
}

/// Whether row `i` shares its total with a neighbour.
pub open spec fn shares_total(s: Seq<NewPlayer>, i: int) -> bool {
    (i + 1 < s.len() && s[i].total_score == s[i + 1].total_score) || (i > 0 && s[i].total_score == s[i - 1].total_score)
}

/// The move of a player on the leaderboard from `old_pos` to `lb_pos`.
pub open spec fn rank_of(old_pos: u16, lb_pos: u16, round_ind: usize) -> RankUpDown {
    if old_pos < lb_pos && round_ind != 0 {
        RankUpDown::Down((lb_pos - old_pos) as i16)
    } else if old_pos > lb_pos && round_ind != 0 {
        RankUpDown::Up((old_pos - lb_pos) as i16)
    } else {
        RankUpDown::Same
    }
}

/// Row `i` of the ordered players with its row number, place, shared mark
/// and move.
pub open spec fn assigned(s: Seq<NewPlayer>, i: int) -> NewPlayer {
    NewPlayer {
        position: (i + 1) as u16,
        lb_pos: lb_place(s, i) as u16,
        lb_even: s[i].lb_even || shares_total(s, i),
        rank: rank_of(s[i].old_pos, lb_place(s, i) as u16, s[i].round_ind),
        ..s[i]
    }
}

/// The players ordered by total, with their places.
pub open spec fn positioned(ps: Seq<NewPlayer>) -> Seq<NewPlayer> {
    Seq::new(ps.len(), |i: int| assigned(stable_sorted(ps), i))
}

proof fn lemma_lb_place_bounds(s: Seq<NewPlayer>, i: int)
    requires
        0 <= i < s.len(),
    ensures
        1 <= lb_place(s, i) <= s.len(),
    decreases i,
{
    if i > 0 {
        lemma_lb_place_bounds(s, i - 1);
    }
}

/// The lowest round score of the players (zero where there are none).
pub open spec fn min_round_score(s: Seq<NewPlayer>) -> i16
    decreases s.len(),
{
    if s.len() == 0 {
        0
    } else if s.len() == 1 {
        s[0].round_score
    } else {
        let m = min_round_score(s.drop_last());
        if s.last().round_score < m { s.last().round_score } else { m }
    }
}

/// The players with the lowest round score marked as playing a hot round.
pub open spec fn hot_marked(s: Seq<NewPlayer>) -> Seq<NewPlayer> {
    s.map_values(|p: NewPlayer| NewPlayer { hot_round: p.hot_round || p.round_score == min_round_score(s), ..p })
}

fn place_row(p: NewPlayer, i: usize, n: usize, next_total: Option<i16>, prev: Option<(i16, u16)>, Ghost(s): Ghost<Seq<NewPlayer>>) -> (r: NewPlayer)
    requires
        i < n,
        n == s.len(),
        n <= i16::MAX,
        p == s[i as int],
        p.old_pos <= i16::MAX,
        1 <= lb_place(s, i as int) <= n,
        next_total == if i + 1 < n { Some(s[i + 1].total_score) } else { None::<i16> },
        prev == if i > 0 { Some((s[i - 1].total_score, lb_place(s, i - 1) as u16)) } else { None::<(i16, u16)> },
    ensures
        r == assigned(s, i as int),
{
    let mut p = p;
    p.position = i as u16 + 1;
    match next_total {
        Some(t) => {
            match prev {
                Some((pt, pp)) => {
                    if p.total_score != pt {
                        p.lb_pos = i as u16 + 1;
                    } else {
                        p.lb_pos = pp;
                    }
                },
                None => {
                    p.lb_pos = i as u16 + 1;
                },
            }
            if p.total_score == t {
                p.lb_even = true;
            }
        },
        None => {
            p.lb_pos = n as u16;
        },
    }
    match prev {
        Some((pt, pp)) => {
            if p.total_score == pt {
                if next_total.is_none() {
                    p.lb_pos = pp;
                }
                p.lb_even = true;
            }
        },
        None => {},
    }
    assert(p.lb_pos as int == lb_place(s, i as int));
    p.check_pos();
    p
}

impl MyApp {
    /// Orders the players of the division by total (players who did not
    /// finish last) and gives each their row, place (shared places marked)
    /// and move (see `positioned`).
    pub fn assign_position(&mut self)
        requires
            old(self).score_card.all_play_players@.len() <= i16::MAX,
            forall|i: int| 0 <= i < old(self).score_card.all_play_players@.len() ==> (#[trigger] old(self).score_card.all_play_players@[i]).old_pos <= i16::MAX,
        ensures
            final(self).score_card.all_play_players@ == positioned(old(self).score_card.all_play_players@),
            *final(self) == (MyApp { score_card: ScoreCard { all_play_players: final(self).score_card.all_play_players, ..old(self).score_card }, ..*old(self) }),
    {
        let ghost original = self.score_card.all_play_players@;
        let mut players: Vec<NewPlayer> = Vec::new();
        std::mem::swap(&mut players, &mut self.score_card.all_play_players);
        let mut v = stable_sort(players);
        let ghost s = v@;
        proof {
            crate::sort::lemma_stable_sorted(original);
            original.to_multiset_ensures();
            s.to_multiset_ensures();
            assert(s.len() == original.len());
            assert forall|i: int| 0 <= i < s.len() implies #[trigger] s[i].old_pos <= i16::MAX by {
                assert(s.to_multiset().count(s[i]) > 0);
                assert(original.to_multiset().count(s[i]) > 0);
                let j = choose|j: int| 0 <= j < original.len() && original[j] == s[i];
                assert(original[j].old_pos <= i16::MAX);
            }
        }
        let n = v.len();
        let mut out: Vec<NewPlayer> = Vec::new();
        let mut prev_total: i16 = 0;
        let mut prev_place: u16 = 0;
        let mut i: usize = 0;
        while i < n
            invariant
                i <= n,
                n == s.len(),
                n <= i16::MAX,
                forall|k: int| 0 <= k < s.len() ==> (#[trigger] s[k]).old_pos <= i16::MAX,
                v@ == s.subrange(i as int, n as int),
                out@ == Seq::new(i as nat, |k: int| assigned(s, k)),
                i > 0 ==> prev_total == s[i - 1].total_score && prev_place as int == lb_place(s, i - 1),
            decreases n - i,
        {
            let p = v.remove(0);
            assert(p == s[i as int]);
            proof {
                lemma_lb_place_bounds(s, i as int);
            }
            let next_total: Option<i16> = if v.len() > 0 { Some(v[0].total_score) } else { None };
            let prev: Option<(i16, u16)> = if i > 0 { Some((prev_total, prev_place)) } else { None };
            let p = place_row(p, i, n, next_total, prev, Ghost(s));
            prev_total = p.total_score;
            prev_place = p.lb_pos;
            out.push(p);
            assert(out@ =~= Seq::new((i + 1) as nat, |k: int| assigned(s, k)));
            i = i + 1;
        }
        self.score_card.all_play_players = out;
    }

    /// Marks the players with the lowest round score as playing a hot round.
    fn set_hot_round(&mut self)
        ensures
            final(self).score_card.all_play_players@ == hot_marked(old(self).score_card.all_play_players@),
            *final(self) == (MyApp { score_card: ScoreCard { all_play_players: final(self).score_card.all_play_players, ..old(self).score_card }, ..*old(self) }),
    {
        let ghost s = self.score_card.all_play_players@;
        let mut hot: i16 = 0;
        let mut i: usize = 0;
        while i < self.score_card.all_play_players.len()
            invariant
                i <= s.len(),
                self.score_card.all_play_players@ == s,
                hot == min_round_score(s.take(i as int)),
            decreases s.len() - i,
        {
            assert(s.take(i + 1).drop_last() =~= s.take(i as int));
            let r = self.score_card.all_play_players[i].round_score;
            if i == 0 || r < hot {
                hot = r;
            }
            i = i + 1;
        }
        assert(s.take(s.len() as int) =~= s);
        let mut players: Vec<NewPlayer> = Vec::new();
        std::mem::swap(&mut players, &mut self.score_card.all_play_players);
        let mut v = players;
        let mut out: Vec<NewPlayer> = Vec::new();
        let mut j: usize = 0;
        let n = v.len();
        while j < n
            invariant
                j <= n,
                n == s.len(),
                hot == min_round_score(s),
                v@ == s.subrange(j as int, n as int),
                out@ == hot_marked(s).take(j as int),
            decreases n - j,
        {
            let mut p = v.remove(0);
            assert(p == s[j as int]);
            if p.round_score == hot {
                p.hot_round = true;
            }
            out.push(p);
            assert(out@ =~= hot_marked(s).take(j + 1));
            j = j + 1;
        }
        assert(hot_marked(s).take(n as int) =~= hot_marked(s));
        self.score_card.all_play_players = out;
    }
}


/// What `str::to_uppercase` gives for a text.
pub uninterp spec fn uppercase(s: Seq<char>) -> Seq<char>;

/// The text in upper case, by `str::to_uppercase`; the result is named
/// `uppercase`.
#[verifier::external_body]
fn to_uppercase(s: &str) -> (r: String)
    ensures
        r@ == uppercase(s@),
{
    s.to_uppercase()
}

/// The names of the divisions of the handler.
pub open spec fn div_names(h: RustHandler) -> Seq<Seq<char>> {
    h.divisions@.map_values(|d: Division| d.name@)
}

/// The ids of a list of players.
pub open spec fn player_ids(s: Seq<NewPlayer>) -> Seq<Seq<char>> {
    s.map_values(|p: NewPlayer| p.player_id@)
}

/// The names of a list of players.
pub open spec fn player_names(s: Seq<NewPlayer>) -> Seq<Seq<char>> {
    s.map_values(|p: NewPlayer| p.name@)
}

/// Whether two lists hold alike players (see `same_player`).
pub open spec fn same_players(a: Seq<NewPlayer>, b: Seq<NewPlayer>) -> bool {
    &&& a.len() == b.len()
    &&& forall|i: int| 0 <= i < a.len() ==> #[trigger] same_player(a[i], b[i])
}

fn copy_players(v: &Vec<NewPlayer>) -> (r: Vec<NewPlayer>)
    ensures
        same_players(r@, v@),
{
    let mut out: Vec<NewPlayer> = Vec::new();
    let mut i: usize = 0;
    while i < v.len()
        invariant
            i <= v@.len(),
            same_players(out@, v@.take(i as int)),
        decreases v@.len() - i,
    {
        out.push(v[i].duplicate());
        i = i + 1;
    }
    assert(v@.take(v@.len() as int) =~= v@);
    out
}

impl MyApp {
    /// Empties the scores of the four players and the leaderboard rows.
    pub fn reset_scores(&mut self) -> (r: Vec<String>)
        requires
            before_ok(old(self).score_card.p1),
            before_ok(old(self).score_card.p2),
            before_ok(old(self).score_card.p3),
            before_ok(old(self).score_card.p4),
        ensures
            final(self).score_card.p1 == reset_state(old(self).score_card.p1),
            final(self).score_card.p2 == reset_state(old(self).score_card.p2),
            final(self).score_card.p3 == reset_state(old(self).score_card.p3),
            final(self).score_card.p4 == reset_state(old(self).score_card.p4),
            final(self).score_card.all_play_players == old(self).score_card.all_play_players,
            cmds(r@) == reset_cmds(old(self).score_card.p1) + reset_cmds(old(self).score_card.p2)
                + reset_cmds(old(self).score_card.p3) + reset_cmds(old(self).score_card.p4) + clear_cmds(10),
    {
        let mut r = self.score_card.p1.reset_scores();
        let mut b = self.score_card.p2.reset_scores();
        let mut c = self.score_card.p3.reset_scores();
        let mut d = self.score_card.p4.reset_scores();
        let mut e = MyApp::clear_lb(10);
        let ghost (rv, bv, cv, dv, ev) = (r@, b@, c@, d@, e@);
        r.append(&mut b);
        r.append(&mut c);
        r.append(&mut d);
        r.append(&mut e);
        assert(cmds(r@) =~= cmds(rv) + cmds(bv) + cmds(cv) + cmds(dv) + cmds(ev));
        r
    }

    /// The names of the divisions.
    pub fn get_div_names(&self) -> (r: Vec<String>)
        requires
            self.handler is Some,
        ensures
            r@.map_values(|s: String| s@) == div_names(self.handler->0),
    {
        let h = match &self.handler {
            Some(h) => h,
            None => {
                return Vec::new();
            },
        };
        let divs = h.get_divisions();
        assert(division_views(divs@).len() == divs@.len() && division_views(h.divisions@).len() == h.divisions@.len());
        let mut out: Vec<String> = Vec::new();
        let mut i: usize = 0;
        while i < divs.len()
            invariant
                i <= divs@.len(),
                out@.len() == i,
                divs@.len() == h.divisions@.len(),
                division_views(divs@) == division_views(h.divisions@),
                out@.map_values(|s: String| s@) == div_names(*h).take(i as int),
            decreases divs@.len() - i,
        {
            proof {
                assert(division_views(divs@)[i as int] == division_views(h.divisions@)[i as int]);
            }
            let ghost before = out@;
            out.push(divs[i].name.clone());
            assert(out@.map_values(|s: String| s@) =~= before.map_values(|s: String| s@).push(h.divisions@[i as int].name@));
            assert(out@.map_values(|s: String| s@) =~= div_names(*h).take(i + 1));
            i = i + 1;
        }
        assert(div_names(*h).take(divs@.len() as int) =~= div_names(*h));
        out
    }

    /// Reads the players of the chosen division in the round on; outside the
    /// leaderboard they also become the players the scorecard picks from.
    pub fn get_players(&mut self, lb: bool)
        requires
            old(self).handler matches Some(h) && event_ready(h.event) && h.round_ind < h.event.rounds@.len(),
        ensures
            ({
                let h = old(self).handler->0;
                made_for(final(self).available_players@, division_players(h.event.rounds@[h.round_ind as int]->0.pools@, h.chosen_division@),
                    h.event, h.chosen_division@, h.vmix_id@, h.lb_vmix_id@)
            }),
            !lb ==> same_players(final(self).score_card.all_play_players@, final(self).available_players@),
            lb ==> final(self).score_card.all_play_players == old(self).score_card.all_play_players,
            final(self).handler == old(self).handler,
            final(self).score_card.p1 == old(self).score_card.p1,
            final(self).score_card.p2 == old(self).score_card.p2,
            final(self).score_card.p3 == old(self).score_card.p3,
            final(self).score_card.p4 == old(self).score_card.p4,
            final(self).round_ind == old(self).round_ind,
            final(self).selected_div_ind == old(self).selected_div_ind,
            final(self).foc_play_ind == old(self).foc_play_ind,
            final(self).lb_thru == old(self).lb_thru,
            final(self).lb_div_ind == old(self).lb_div_ind,
    {
        let players = match &self.handler {
            Some(h) => h.get_players(),
            None => Vec::new(),
        };
        self.available_players = players;
        if !lb {
            self.score_card.all_play_players = copy_players(&self.available_players);
        }
    }

    /// The names of the players read.
    pub fn get_player_names(&self) -> (r: Vec<String>)
        ensures
            r@.map_values(|s: String| s@) == player_names(self.available_players@),
    {
        let mut out: Vec<String> = Vec::new();
        let mut i: usize = 0;
        while i < self.available_players.len()
            invariant
                i <= self.available_players@.len(),
                out@.len() == i,
                out@.map_values(|s: String| s@) == player_names(self.available_players@).take(i as int),
            decreases self.available_players@.len() - i,
        {
            out.push(self.available_players[i].name.clone());
            assert(out@.map_values(|s: String| s@) =~= player_names(self.available_players@).take(i + 1));
            i = i + 1;
        }
        assert(player_names(self.available_players@).take(self.available_players@.len() as int) =~= player_names(self.available_players@));
        out
    }

    /// The ids of the players read.
    pub fn get_player_ids(&self) -> (r: Vec<String>)
        ensures
            r@.map_values(|s: String| s@) == player_ids(self.available_players@),
    {
        let mut out: Vec<String> = Vec::new();
        let mut i: usize = 0;
        while i < self.available_players.len()
            invariant
                i <= self.available_players@.len(),
                out@.len() == i,
                out@.map_values(|s: String| s@) == player_ids(self.available_players@).take(i as int),
            decreases self.available_players@.len() - i,
        {
            out.push(self.available_players[i].player_id.clone());
            assert(out@.map_values(|s: String| s@) =~= player_ids(self.available_players@).take(i + 1));
            i = i + 1;
        }
        assert(player_ids(self.available_players@).take(self.available_players@.len() as int) =~= player_ids(self.available_players@));
        out
    }

    /// Chooses the division at index `idx` and reads its players for the
    /// scorecard.
    pub fn set_div(&mut self, idx: usize)
        requires
            old(self).handler matches Some(h) && event_ready(h.event) && h.round_ind < h.event.rounds@.len() && idx < h.divisions@.len(),
        ensures
            final(self).selected_div_ind == idx,
            ({
                let h = final(self).handler->0;
                &&& final(self).handler is Some
                &&& h.chosen_division@ == old(self).handler->0.divisions@[idx as int].id@
                &&& h.event == old(self).handler->0.event
                &&& h.divisions@ == old(self).handler->0.divisions@
                &&& h.round_ind == old(self).handler->0.round_ind
                &&& made_for(final(self).available_players@, division_players(h.event.rounds@[h.round_ind as int]->0.pools@, h.chosen_division@),
                    h.event, h.chosen_division@, h.vmix_id@, h.lb_vmix_id@)
            }),
            same_players(final(self).score_card.all_play_players@, final(self).available_players@),
    {
        self.selected_div_ind = idx;
        match &mut self.handler {
            Some(h) => h.set_chosen_by_ind(idx),
            None => {},
        }
        self.get_players(false);
    }

    /// The player of the division with the id of `player`, in its slot.
    pub fn find_same(&self, player: &NewPlayer) -> (r: Option<NewPlayer>)
        ensures
            match first_with_id(self.score_card.all_play_players@, player.player_id@, 0) {
                Some(k) => r matches Some(q) && same_player(q, NewPlayer { ind: player.ind, ..self.score_card.all_play_players@[k] }),
                None => r is None,
            },
    {
        proof {
            lemma_first_with_id(self.score_card.all_play_players@, player.player_id@, 0);
        }
        let mut i: usize = 0;
        while i < self.score_card.all_play_players.len()
            invariant
                i <= self.score_card.all_play_players@.len(),
                first_with_id(self.score_card.all_play_players@, player.player_id@, 0)
                    == first_with_id(self.score_card.all_play_players@, player.player_id@, i as int),
            decreases self.score_card.all_play_players@.len() - i,
        {
            if crate::text::str_eq(self.score_card.all_play_players[i].player_id.as_str(), player.player_id.as_str()) {
                let mut cl = self.score_card.all_play_players[i].duplicate();
                cl.ind = player.ind;
                return Some(cl);
            }
            i = i + 1;
        }
        None
    }
}

/// The index of the first player with the given id.
pub open spec fn first_with_id(s: Seq<NewPlayer>, id: Seq<char>, from: int) -> Option<int>
    decreases s.len() - from,
{
    if from < 0 || from >= s.len() {
        None
    } else if s[from].player_id@ == id {
        Some(from)
    } else {
        first_with_id(s, id, from + 1)
    }
}

proof fn lemma_first_with_id(s: Seq<NewPlayer>, id: Seq<char>, from: int)
    requires
        0 <= from,
    ensures
        first_with_id(s, id, from) matches Some(k) ==> from <= k < s.len() && s[k].player_id@ == id,
    decreases s.len() - from,
{
    if from < s.len() && s[from].player_id@ != id {
        lemma_first_with_id(s, id, from + 1);
    }
}


/// The player after their leaderboard row was sent (see `NewPlayer::set_lb`).
pub open spec fn lb_checked(p: NewPlayer) -> NewPlayer {
    NewPlayer { lb_shown: if p.round_ind >= p.rounds@.len() { false } else { p.lb_shown }, ..p }
}

/// The leaderboard rows of the players, in order.
pub open spec fn rows_cmds(s: Seq<NewPlayer>) -> Seq<Seq<char>>
    decreases s.len(),
{
    if s.len() == 0 {
        seq![]
    } else {
        rows_cmds(s.drop_last()) + lb_cmds(s.last())
    }
}

/// The check-in title of the leaderboard of a division.
pub open spec fn checkin_cmd(div_name: Seq<char>) -> Seq<char> {
    text_cmd(LeaderBoardProperty::CheckinText.selection(), uppercase(div_name) + " "@ + "LEADERBOARD CHECK-IN"@)
}

/// The player after the holes up to `n` were set and scored one by one.
pub open spec fn walk(p: NewPlayer, n: nat) -> NewPlayer
    decreases n, 0nat,
{
    if n == 0 {
        p
    } else {
        scored(walk_pre(p, (n - 1) as nat))
    }
}

/// The player with hole `k + 1` set, after the holes up to `k` were walked.
pub open spec fn walk_pre(p: NewPlayer, k: nat) -> NewPlayer
    decreases k, 1nat,
{
    NewPlayer { hole: (k + 1) as usize, ..walk(p, k) }
}

/// The calls of setting and scoring the holes up to `n` one by one.
pub open spec fn walk_cmds(p: NewPlayer, n: nat) -> Seq<Seq<char>>
    decreases n,
{
    if n == 0 {
        seq![]
    } else {
        walk_cmds(p, (n - 1) as nat) + score_cmds(walk_pre(p, (n - 1) as nat))
    }
}

/// Whether the holes up to `n` can be set and scored one by one.
pub open spec fn walk_ok(p: NewPlayer, n: nat) -> bool {
    forall|k: nat| k < n ==> #[trigger] score_ok(walk_pre(p, k))
}

/// The player after the scorecard was brought to hole `hole`: from the ninth
/// the scores are shifted, else the holes are scored one by one.
pub open spec fn to_hole(p: NewPlayer, hole: usize) -> NewPlayer {
    if hole >= 9 { shifted(NewPlayer { hole: (hole - 1) as usize, ..p }, true) } else { walk(p, hole as nat) }
}

/// The calls of bringing the scorecard to hole `hole`.
pub open spec fn to_hole_cmds(p: NewPlayer, hole: usize) -> Seq<Seq<char>> {
    if hole >= 9 { shift_cmds(NewPlayer { hole: (hole - 1) as usize, ..p }, true) } else { walk_cmds(p, hole as nat) }
}

/// Whether the scorecard can be brought to hole `hole`.
pub open spec fn to_hole_ok(p: NewPlayer, hole: usize) -> bool {
    if hole >= 9 { shift_ok(NewPlayer { hole: (hole - 1) as usize, ..p }, true) } else { walk_ok(p, hole as nat) }
}

impl NewPlayer {
    fn go_to_hole(&mut self, hole: usize) -> (r: Vec<String>)
        requires
            to_hole_ok(*old(self), hole),
        ensures
            *final(self) == to_hole(*old(self), hole),
            cmds(r@) == to_hole_cmds(*old(self), hole),
    {
        if hole >= 9 {
            self.hole = hole - 1;
            self.shift_scores(true)
        } else {
            let ghost p = *self;
            let mut r: Vec<String> = Vec::new();
            let mut x: usize = 1;
            while x <= hole
                invariant
                    1 <= x <= hole + 1,
                    hole < 9,
                    walk_ok(p, hole as nat),
                    *self == walk(p, (x - 1) as nat),
                    cmds(r@) == walk_cmds(p, (x - 1) as nat),
                decreases hole + 1 - x,
            {
                self.hole = x;
                assert(score_ok(walk_pre(p, (x - 1) as nat)));
                let mut step = self.set_hole_score();
                let ghost before = r@;
                let ghost sv = step@;
                r.append(&mut step);
                assert(cmds(r@) =~= cmds(before) + cmds(sv));
                x = x + 1;
            }
            r
        }
    }
}

impl MyApp {
    /// The check-in title of the leaderboard of the division chosen.
    fn make_checkin_text(&self) -> (r: String)
        requires
            self.handler is Some,
            self.selected_div_ind < self.handler->0.divisions@.len(),
        ensures
            r@ == checkin_cmd(div_names(self.handler->0)[self.selected_div_ind as int]),
    {
        let names = self.get_div_names();
        assert(names@.map_values(|s: String| s@).len() == names@.len());
        assert(div_names(self.handler->0).len() == self.handler->0.divisions@.len());
        assert(names@.map_values(|s: String| s@)[self.selected_div_ind as int] == names@[self.selected_div_ind as int]@);
        proof {
            reveal_strlit(" ");
            reveal_strlit("LEADERBOARD CHECK-IN");
        }
        let value = to_uppercase(names[self.selected_div_ind].as_str()).concat(" ").concat("LEADERBOARD CHECK-IN");
        lb_text_call(value, LeaderBoardProperty::CheckinText)
    }

    /// The leaderboard rows of the players of the division, then its check-in
    /// title.
    pub fn make_lb(&mut self) -> (r: Vec<String>)
        requires
            old(self).handler is Some,
            old(self).selected_div_ind < old(self).handler->0.divisions@.len(),
        ensures
            final(self).score_card.all_play_players@ == old(self).score_card.all_play_players@.map_values(|p: NewPlayer| lb_checked(p)),
            *final(self) == (MyApp { score_card: ScoreCard { all_play_players: final(self).score_card.all_play_players, ..old(self).score_card }, ..*old(self) }),
            cmds(r@) == rows_cmds(old(self).score_card.all_play_players@) + seq![checkin_cmd(div_names(old(self).handler->0)[old(self).selected_div_ind as int])],
    {
        let ghost s = self.score_card.all_play_players@;
        let mut players: Vec<NewPlayer> = Vec::new();
        std::mem::swap(&mut players, &mut self.score_card.all_play_players);
        let n = players.len();
        let mut v = players;
        let mut out: Vec<NewPlayer> = Vec::new();
        let mut r: Vec<String> = Vec::new();
        let mut i: usize = 0;
        while i < n
            invariant
                i <= n,
                n == s.len(),
                v@ == s.subrange(i as int, n as int),
                out@ == s.take(i as int).map_values(|p: NewPlayer| lb_checked(p)),
                cmds(r@) == rows_cmds(s.take(i as int)),
            decreases n - i,
        {
            let mut p = v.remove(0);
            assert(p == s[i as int]);
            let mut row = p.set_lb();
            let ghost before = r@;
            r.append(&mut row);
            assert(s.take(i + 1).drop_last() =~= s.take(i as int));
            assert(cmds(r@) =~= cmds(before) + lb_cmds(s[i as int]));
            out.push(p);
            assert(out@ =~= s.take(i + 1).map_values(|p: NewPlayer| lb_checked(p)));
            i = i + 1;
        }
        assert(s.take(n as int) =~= s);
        self.score_card.all_play_players = out;
        let text = self.make_checkin_text();
        let ghost rows = r@;
        r.push(text);
        assert(cmds(r@) =~= cmds(rows) + seq![checkin_cmd(div_names(old(self).handler->0)[old(self).selected_div_ind as int])]);
        r
    }

    /// Brings the four players' scorecards to hole `hole` (see `to_hole`).
    pub fn set_all_to_hole(&mut self, hole: usize) -> (r: Vec<String>)
        requires
            to_hole_ok(old(self).score_card.p1, hole),
            to_hole_ok(old(self).score_card.p2, hole),
            to_hole_ok(old(self).score_card.p3, hole),
            to_hole_ok(old(self).score_card.p4, hole),
        ensures
            final(self).score_card.p1 == to_hole(old(self).score_card.p1, hole),
            final(self).score_card.p2 == to_hole(old(self).score_card.p2, hole),
            final(self).score_card.p3 == to_hole(old(self).score_card.p3, hole),
            final(self).score_card.p4 == to_hole(old(self).score_card.p4, hole),
            final(self).score_card.all_play_players == old(self).score_card.all_play_players,
            cmds(r@) == to_hole_cmds(old(self).score_card.p1, hole) + to_hole_cmds(old(self).score_card.p2, hole)
                + to_hole_cmds(old(self).score_card.p3, hole) + to_hole_cmds(old(self).score_card.p4, hole),
    {
        let mut r = self.score_card.p1.go_to_hole(hole);
        let mut b = self.score_card.p2.go_to_hole(hole);
        let mut c = self.score_card.p3.go_to_hole(hole);
        let mut d = self.score_card.p4.go_to_hole(hole);
        let ghost (rv, bv, cv, dv) = (r@, b@, c@, d@);
        r.append(&mut b);
        r.append(&mut c);
        r.append(&mut d);
        assert(cmds(r@) =~= cmds(rv) + cmds(bv) + cmds(cv) + cmds(dv));
        r
    }

    /// The hole card of the hole the leaderboard counts through, for the
    /// first scorecard player's round (none past the last hole, or without a
    /// round); `meters` and `feet` are the hole's length.
    pub fn make_hole_info(&mut self, meters: u64, feet: u64) -> (r: Vec<String>)
        requires
            min_hole(old(self).score_card) < usize::MAX,
            (min_hole(old(self).score_card) + 1 <= 18 && cur_results(old(self).score_card.p1) is Some) ==> {
                let rs = cur_results(old(self).score_card.p1)->0;
                &&& min_hole(old(self).score_card) < rs.len()
                &&& rs[min_hole(old(self).score_card) as int].hole.par is Some
            },
        ensures
            *final(self) == (MyApp { lb_thru: min_hole(old(self).score_card), ..*old(self) }),
            ({
                let h = min_hole(old(self).score_card) as int;
                if h + 1 <= 18 && cur_results(old(self).score_card.p1) is Some {
                    let rs = cur_results(old(self).score_card.p1)->0;
                    cmds(r@) == seq![
                        text_cmd(VmixProperty::Hole.selection(), nat_to_dec(rs[h].hole.number as nat)),
                        text_cmd(VmixProperty::HolePar.selection(), nat_to_dec(rs[h].hole.par->0 as nat)),
                        text_cmd(VmixProperty::HoleMeters.selection(), nat_to_dec(meters as nat) + "M"@),
                        text_cmd(VmixProperty::HoleFeet.selection(), nat_to_dec(feet as nat) + "FT"@),
                    ]
                } else {
                    r@.len() == 0
                }
            }),
    {
        if self.get_hole(true) <= 18 {
            match self.score_card.p1.current_round() {
                Some(round) => round.get_hole_info(self.lb_thru, meters, feet),
                None => Vec::new(),
            }
        } else {
            Vec::new()
        }
    }
}


/// A player counted through the whole round before round `r` (the place
/// they had kept as their old place).
pub open spec fn prev_done(p: NewPlayer, r: usize) -> NewPlayer {
    let q = reset_state(NewPlayer { round_ind: (r - 1) as usize, old_pos: p.lb_pos, ..p });
    totalled(NewPlayer { hole: 17, ..q })
}

/// Whether a player can be counted through the round before round `r`.
pub open spec fn prev_ok(p: NewPlayer, r: usize) -> bool {
    let q = NewPlayer { round_ind: (r - 1) as usize, old_pos: p.lb_pos, ..p };
    before_ok(q) && tot_ok(NewPlayer { hole: 17, ..reset_state(q) })
}

/// A player counted in round `r` through `thru` holes (the place they had
/// kept as their old place, unmarked).
pub open spec fn cur_done(p: NewPlayer, r: usize, thru: usize) -> NewPlayer {
    let q = reset_state(NewPlayer { round_ind: r, hot_round: false, lb_even: false, old_pos: p.lb_pos, ..p });
    totalled(NewPlayer { thru: thru as u8, hole: if thru > 0 { (thru - 1) as usize } else { 0 }, ..q })
}

/// Whether a player can be counted in round `r` through `thru` holes.
pub open spec fn cur_ok(p: NewPlayer, r: usize, thru: usize) -> bool {
    let q = NewPlayer { round_ind: r, hot_round: false, lb_even: false, old_pos: p.lb_pos, ..p };
    before_ok(q) && tot_ok(NewPlayer { thru: thru as u8, hole: if thru > 0 { (thru - 1) as usize } else { 0 }, ..reset_state(q) })
}

/// The players of the division as the round before left them: counted
/// through that round, placed, and the hot round marked.
pub open spec fn prev_fixed(s: Seq<NewPlayer>, r: usize) -> Seq<NewPlayer> {
    hot_marked(positioned(s.map_values(|p: NewPlayer| prev_done(p, r))))
}

/// The players the round on starts from: those of the round before where
/// there is one.
pub open spec fn fix_start(app: MyApp) -> Seq<NewPlayer> {
    if app.round_ind != 0 {
        prev_fixed(app.score_card.all_play_players@, app.round_ind)
    } else {
        app.score_card.all_play_players@
    }
}

/// The players of the division counted through the hole the leaderboard is
/// at, placed (against their places in the round before), and the hot round
/// marked.
pub open spec fn fixed(app: MyApp) -> Seq<NewPlayer> {
    hot_marked(positioned(fix_start(app).map_values(|p: NewPlayer| cur_done(p, app.round_ind, app.lb_thru))))
}

/// Whether the players of the division can be counted and placed.
pub open spec fn fix_ok(app: MyApp) -> bool {
    let s = app.score_card.all_play_players@;
    &&& s.len() <= i16::MAX
    &&& forall|i: int| 0 <= i < s.len() ==> (#[trigger] s[i]).lb_pos <= i16::MAX
    &&& app.round_ind != 0 ==> forall|i: int| 0 <= i < s.len() ==> prev_ok(#[trigger] s[i], app.round_ind)
    &&& forall|i: int| 0 <= i < fix_start(app).len() ==> cur_ok(#[trigger] fix_start(app)[i], app.round_ind, app.lb_thru)
}

fn prev_step(p: &mut NewPlayer, r: usize)
    requires
        r != 0,
        prev_ok(*old(p), r),
    ensures
        *final(p) == prev_done(*old(p), r),
{
    p.old_pos = p.lb_pos;
    let _ = p.set_round(r - 1);
    p.hole = 17;
    p.make_tot_score();
}

fn cur_step(p: &mut NewPlayer, r: usize, thru: usize)
    requires
        cur_ok(*old(p), r, thru),
    ensures
        *final(p) == cur_done(*old(p), r, thru),
{
    p.hot_round = false;
    p.lb_even = false;
    p.old_pos = p.lb_pos;
    let _ = p.set_round(r);
    p.thru = thru as u8;
    p.hole = if thru > 0 { thru - 1 } else { 0 };
    p.make_tot_score();
}

proof fn lemma_positioned_places(ps: Seq<NewPlayer>)
    requires
        ps.len() <= i16::MAX,
    ensures
        positioned(ps).len() == ps.len(),
        forall|i: int| 0 <= i < ps.len() ==> (#[trigger] positioned(ps)[i]).lb_pos <= i16::MAX,
        hot_marked(positioned(ps)).len() == ps.len(),
        forall|i: int| 0 <= i < ps.len() ==> (#[trigger] hot_marked(positioned(ps))[i]).lb_pos <= i16::MAX,
{
    crate::sort::lemma_stable_sorted(ps);
    ps.to_multiset_ensures();
    stable_sorted(ps).to_multiset_ensures();
    assert forall|i: int| 0 <= i < ps.len() implies (#[trigger] positioned(ps)[i]).lb_pos <= i16::MAX by {
        lemma_lb_place_bounds(stable_sorted(ps), i);
    }
    assert forall|i: int| 0 <= i < ps.len() implies (#[trigger] hot_marked(positioned(ps))[i]).lb_pos <= i16::MAX by {
        assert(hot_marked(positioned(ps))[i].lb_pos == positioned(ps)[i].lb_pos);
    }
}

impl MyApp {
    /// Counts every player of the division in the round before (where there
    /// is one), then in the round on (see `fixed`).
    fn fix_players(&mut self)
        requires
            fix_ok(*old(self)),
        ensures
            final(self).score_card.all_play_players@ == fixed(*old(self)),
            *final(self) == (MyApp { score_card: ScoreCard { all_play_players: final(self).score_card.all_play_players, ..old(self).score_card }, ..*old(self) }),
    {
        let ghost s0 = self.score_card.all_play_players@;
        let ghost app = *self;
        if self.round_ind != 0 {
            let r = self.round_ind;
            let mut players: Vec<NewPlayer> = Vec::new();
            std::mem::swap(&mut players, &mut self.score_card.all_play_players);
            let n = players.len();
            let mut v = players;
            let mut out: Vec<NewPlayer> = Vec::new();
            let mut i: usize = 0;
            while i < n
                invariant
                    i <= n,
                    n == s0.len(),
                    r == app.round_ind,
                    r != 0,
                    forall|k: int| 0 <= k < s0.len() ==> prev_ok(#[trigger] s0[k], r),
                    v@ == s0.subrange(i as int, n as int),
                    out@ == s0.take(i as int).map_values(|p: NewPlayer| prev_done(p, r)),
                decreases n - i,
            {
                let mut p = v.remove(0);
                assert(p == s0[i as int]);
                prev_step(&mut p, r);
                out.push(p);
                assert(out@ =~= s0.take(i + 1).map_values(|p: NewPlayer| prev_done(p, r)));
                i = i + 1;
            }
            assert(s0.take(n as int) =~= s0);
            self.score_card.all_play_players = out;
            proof {
                assert forall|k: int| 0 <= k < self.score_card.all_play_players@.len()
                    implies (#[trigger] self.score_card.all_play_players@[k]).old_pos <= i16::MAX by {
                    assert(self.score_card.all_play_players@[k] == prev_done(s0[k], r));
                }
            }
            self.assign_position();
            self.set_hot_round();
            proof {
                lemma_positioned_places(s0.map_values(|p: NewPlayer| prev_done(p, r)));
            }
        }
        let ghost s1 = self.score_card.all_play_players@;
        assert(s1 == fix_start(app));
        let r = self.round_ind;
        let thru = self.lb_thru;
        let mut players: Vec<NewPlayer> = Vec::new();
        std::mem::swap(&mut players, &mut self.score_card.all_play_players);
        let n = players.len();
        let mut v = players;
        let mut out: Vec<NewPlayer> = Vec::new();
        let mut i: usize = 0;
        while i < n
            invariant
                i <= n,
                n == s1.len(),
                n <= i16::MAX,
                forall|k: int| 0 <= k < s1.len() ==> cur_ok(#[trigger] s1[k], r, thru),
                v@ == s1.subrange(i as int, n as int),
                out@ == s1.take(i as int).map_values(|p: NewPlayer| cur_done(p, r, thru)),
            decreases n - i,
        {
            let mut p = v.remove(0);
            assert(p == s1[i as int]);
            cur_step(&mut p, r, thru);
            out.push(p);
            assert(out@ =~= s1.take(i + 1).map_values(|p: NewPlayer| cur_done(p, r, thru)));
            i = i + 1;
        }
        assert(s1.take(n as int) =~= s1);
        self.score_card.all_play_players = out;
        proof {
            if app.round_ind != 0 {
                lemma_positioned_places(s0.map_values(|p: NewPlayer| prev_done(p, app.round_ind)));
            }
            assert forall|k: int| 0 <= k < self.score_card.all_play_players@.len()
                implies (#[trigger] self.score_card.all_play_players@[k]).old_pos <= i16::MAX by {
                assert(self.score_card.all_play_players@[k] == cur_done(s1[k], r, thru));
                assert(s1[k].lb_pos <= i16::MAX);
            }
        }
        self.assign_position();
        self.set_hot_round();
    }
}


proof fn lemma_same_cur(a: NewPlayer, b: NewPlayer)
    requires
        same_player(a, b),
    ensures
        cur_results(a) == cur_results(b),
        before_ok(a) == before_ok(b),
        before_round(a) == before_round(b),
{
    assert(rounds_view(a.rounds@).len() == a.rounds@.len() && rounds_view(b.rounds@).len() == b.rounds@.len());
    if a.round_ind < a.rounds@.len() {
        assert(rounds_view(a.rounds@)[a.round_ind as int] == a.rounds@[a.round_ind as int].results@);
        assert(rounds_view(b.rounds@)[b.round_ind as int] == b.rounds@[b.round_ind as int].results@);
    }
    lemma_same_player_reset(a, b);
}

proof fn lemma_same_scored(a: NewPlayer, b: NewPlayer)
    requires
        same_player(a, b),
    ensures
        score_ok(a) == score_ok(b),
        same_player(scored(a), scored(b)),
        score_cmds(a) == score_cmds(b),
{
    reveal(scored);
    lemma_same_cur(a, b);
    assert(rounds_view(a.rounds@).len() == a.rounds@.len() && rounds_view(b.rounds@).len() == b.rounds@.len());
    let a1 = NewPlayer { first_scored: true, ..a };
    let b1 = NewPlayer { first_scored: true, ..b };
    lemma_same_cur(a1, b1);
    assert(cur_score_to(a1, a1.hole as int) == cur_score_to(b1, b1.hole as int));
    assert(same_player(totalled(a1), totalled(b1)));
}

proof fn lemma_same_steps(a: NewPlayer, b: NewPlayer, n: nat)
    requires
        same_player(a, b),
    ensures
        steps_ok(a, n) == steps_ok(b, n),
        same_player(steps(a, n), steps(b, n)),
        steps_cmds(a, n) == steps_cmds(b, n),
    decreases n,
{
    if n > 0 {
        lemma_same_steps(a, b, (n - 1) as nat);
        lemma_same_scored(steps(a, (n - 1) as nat), steps(b, (n - 1) as nat));
        assert forall|k: nat| k < n implies #[trigger] score_ok(steps(a, k)) == score_ok(steps(b, k)) by {
            lemma_same_steps(a, b, k);
            lemma_same_scored(steps(a, k), steps(b, k));
        }
    }
}

proof fn lemma_same_shift(a: NewPlayer, b: NewPlayer, last_blank: bool)
    requires
        same_player(a, b),
    ensures
        shift_ok(a, last_blank) == shift_ok(b, last_blank),
        same_player(shifted(a, last_blank), shifted(b, last_blank)),
        shift_cmds(a, last_blank) == shift_cmds(b, last_blank),
{
    lemma_same_steps(shift_base(a, last_blank), shift_base(b, last_blank), shift_count(a, last_blank));
}

/// The position call of a player in their scorecard slot (see `NewPlayer::set_pos`).
pub open spec fn pos_cmd(p: NewPlayer) -> Seq<char> {
    if p.visible_player {
        text_cmd(VmixProperty::PlayerPosition(p.ind as u16).selection(),
            (if p.lb_even { "T"@ } else { Seq::empty() }) + nat_to_dec(p.lb_pos as nat))
    } else {
        Seq::empty()
    }
}

/// The calls of a scorecard slot once the leaderboard is shown: the scores
/// shifted back one hole past the eighth, and the position the leaderboard
/// gives the player (where it lists them), when the slots are updated.
pub open spec fn slot_cmds(q: NewPlayer, rows: Seq<NewPlayer>, update: bool) -> Seq<Seq<char>> {
    (if update && q.hole > 7 { shift_cmds(NewPlayer { hole: (q.hole - 1) as usize, ..q }, true) } else { seq![] })
        + match first_with_id(rows, q.player_id@, 0) {
            Some(k) => if update { seq![pos_cmd(NewPlayer { ind: q.ind, ..rows[k] })] } else { seq![] },
            None => seq![],
        }
}

/// Whether the scores of a slot can be shifted back for the leaderboard.
pub open spec fn slot_ok(q: NewPlayer) -> bool {
    q.hole > 7 ==> shift_ok(NewPlayer { hole: (q.hole - 1) as usize, ..q }, true)
}

/// The players of the leaderboard from row `pop` on, their rows counted from there.
pub open spec fn from_row(s: Seq<NewPlayer>, start: Option<usize>) -> Seq<NewPlayer> {
    match start {
        Some(pop) => s.skip(pop as int).map_values(|p: NewPlayer| NewPlayer { position: (p.position - pop as u16) as u16, ..p }),
        None => s,
    }
}

/// The app once the leaderboard counts through the hole every scorecard
/// player has reached, for the division chosen.
pub open spec fn lb_setup(app: MyApp) -> MyApp {
    MyApp { lb_thru: min_hole(app.score_card), lb_div_ind: app.selected_div_ind, ..app }
}

/// Whether the leaderboard can be shown.
pub open spec fn leaderboard_ok(app: MyApp, start: Option<usize>) -> bool {
    let a = lb_setup(app);
    min_hole(app.score_card) + 1 <= 19 ==> {
        &&& app.handler matches Some(h) && event_ready(h.event) && h.round_ind < h.event.rounds@.len()
        &&& app.selected_div_ind < app.handler->0.divisions@.len()
        &&& fix_ok(a)
        &&& start matches Some(pop) ==> pop <= fixed(a).len() && pop < 65536
        &&& slot_ok(app.score_card.p1) && slot_ok(app.score_card.p2) && slot_ok(app.score_card.p3) && slot_ok(app.score_card.p4)
    }
}

impl MyApp {
    fn slot_calls(&self, q: &NewPlayer, update: bool) -> (r: Vec<String>)
        requires
            slot_ok(*q),
        ensures
            cmds(r@) == slot_cmds(*q, self.score_card.all_play_players@, update),
    {
        let same = self.find_same(q);
        let mut cloned = q.duplicate();
        let mut r: Vec<String> = Vec::new();
        if cloned.hole > 7 {
            cloned.hole = cloned.hole - 1;
            proof {
                lemma_same_shift(cloned, NewPlayer { hole: (q.hole - 1) as usize, ..*q }, true);
            }
            let mut shifts = cloned.shift_scores(true);
            if update {
                r.append(&mut shifts);
            }
        }
        let ghost mid = r@;
        match same {
            Some(same) => {
                let pos = same.set_pos();
                if update {
                    r.push(pos);
                }
            },
            None => {},
        }
        proof {
            match first_with_id(self.score_card.all_play_players@, q.player_id@, 0) {
                Some(k) => {
                    if update {
                        assert(cmds(r@) =~= cmds(mid) + seq![pos_cmd(NewPlayer { ind: q.ind, ..self.score_card.all_play_players@[k] })]);
                    } else {
                        assert(cmds(r@) =~= cmds(mid) + Seq::<Seq<char>>::empty());
                    }
                },
                None => {
                    assert(cmds(r@) =~= cmds(mid) + Seq::<Seq<char>>::empty());
                },
            }
        }
        r
    }

    /// Shows the leaderboard of the division chosen: its rows emptied, and,
    /// unless the scorecard is past the last hole, the players read and
    /// counted (see `fixed`), the rows from `lb_start_ind` on sent with the
    /// check-in title, then for each scorecard slot its shifted scores and
    /// position when `update_players`.
    #[verifier::rlimit(60)]
    pub fn set_leaderboard(&mut self, update_players: bool, lb_start_ind: Option<usize>) -> (r: Vec<String>)
        requires
            leaderboard_ok(*old(self), lb_start_ind),
        ensures
            min_hole(old(self).score_card) + 1 > 19 ==> *final(self) == (MyApp { lb_thru: min_hole(old(self).score_card), ..*old(self) })
                && cmds(r@) == clear_cmds(10),
            min_hole(old(self).score_card) + 1 <= 19 ==> {
                let a = lb_setup(*old(self));
                let rows = from_row(fixed(a), lb_start_ind);
                let shown = rows.map_values(|p: NewPlayer| lb_checked(p));
                &&& final(self).score_card.all_play_players@ == shown
                &&& final(self).lb_thru == a.lb_thru && final(self).lb_div_ind == a.lb_div_ind
                &&& final(self).score_card.p1 == old(self).score_card.p1 && final(self).score_card.p2 == old(self).score_card.p2
                &&& final(self).score_card.p3 == old(self).score_card.p3 && final(self).score_card.p4 == old(self).score_card.p4
                &&& final(self).handler == old(self).handler
                &&& cmds(r@) == clear_cmds(10) + rows_cmds(rows)
                    + seq![checkin_cmd(div_names(old(self).handler->0)[old(self).selected_div_ind as int])]
                    + slot_cmds(old(self).score_card.p1, shown, update_players) + slot_cmds(old(self).score_card.p2, shown, update_players)
                    + slot_cmds(old(self).score_card.p3, shown, update_players) + slot_cmds(old(self).score_card.p4, shown, update_players)
            },
    {
        let mut r = MyApp::clear_lb(10);
        self.set_lb_thru();
        if self.lb_thru < 19 {
            let ghost mid = *self;
            assert(fixed(mid) == fixed(lb_setup(*old(self)))) by {
                assert(fix_start(mid) == fix_start(lb_setup(*old(self))));
            }
            assert(fix_ok(mid)) by {
                assert(fix_start(mid) == fix_start(lb_setup(*old(self))));
            }
            let ghost cleared = r@;
            let mut board = self.show_board(update_players, lb_start_ind);
            let ghost bv = board@;
            r.append(&mut board);
            assert(cmds(r@) =~= cmds(cleared) + cmds(bv));
        }
        r
    }

    #[verifier::rlimit(40)]
    fn show_board(&mut self, update_players: bool, lb_start_ind: Option<usize>) -> (r: Vec<String>)
        requires
            old(self).handler matches Some(h) && event_ready(h.event) && h.round_ind < h.event.rounds@.len(),
            old(self).selected_div_ind < old(self).handler->0.divisions@.len(),
            fix_ok(*old(self)),
            lb_start_ind matches Some(pop) ==> pop <= fixed(*old(self)).len() && pop < 65536,
            slot_ok(old(self).score_card.p1) && slot_ok(old(self).score_card.p2),
            slot_ok(old(self).score_card.p3) && slot_ok(old(self).score_card.p4),
        ensures
            ({
                let rows = from_row(fixed(*old(self)), lb_start_ind);
                let shown = rows.map_values(|p: NewPlayer| lb_checked(p));
                &&& final(self).score_card.all_play_players@ == shown
                &&& final(self).lb_thru == old(self).lb_thru && final(self).lb_div_ind == old(self).selected_div_ind
                &&& final(self).score_card.p1 == old(self).score_card.p1 && final(self).score_card.p2 == old(self).score_card.p2
                &&& final(self).score_card.p3 == old(self).score_card.p3 && final(self).score_card.p4 == old(self).score_card.p4
                &&& final(self).handler == old(self).handler
                &&& cmds(r@) == rows_cmds(rows)
                    + seq![checkin_cmd(div_names(old(self).handler->0)[old(self).selected_div_ind as int])]
                    + slot_cmds(old(self).score_card.p1, shown, update_players) + slot_cmds(old(self).score_card.p2, shown, update_players)
                    + slot_cmds(old(self).score_card.p3, shown, update_players) + slot_cmds(old(self).score_card.p4, shown, update_players)
            }),
    {
        let ghost a = *self;
        self.lb_div_ind = self.selected_div_ind;
        self.get_players(true);
        assert(fix_ok(*self) && fixed(*self) == fixed(a)) by {
            assert(fix_start(*self) == fix_start(a));
        }
        self.fix_players();
        proof {
            lemma_fixed_positions(fix_start(a).map_values(|p: NewPlayer| cur_done(p, a.round_ind, a.lb_thru)));
        }
        match lb_start_ind {
            Some(pop) => {
                let mut players: Vec<NewPlayer> = Vec::new();
                std::mem::swap(&mut players, &mut self.score_card.all_play_players);
                self.score_card.all_play_players = drop_rows(players, pop);
            },
            None => {},
        }
        assert(self.score_card.all_play_players@ == from_row(fixed(a), lb_start_ind));
        let mut r = self.make_lb();
        let ghost bv = r@;
        let mut c1 = self.slot_calls(&self.score_card.p1, update_players);
        let mut c2 = self.slot_calls(&self.score_card.p2, update_players);
        let mut c3 = self.slot_calls(&self.score_card.p3, update_players);
        let mut c4 = self.slot_calls(&self.score_card.p4, update_players);
        let ghost (v1, v2, v3, v4) = (c1@, c2@, c3@, c4@);
        r.append(&mut c1);
        r.append(&mut c2);
        r.append(&mut c3);
        r.append(&mut c4);
        assert(cmds(r@) =~= cmds(bv) + cmds(v1) + cmds(v2) + cmds(v3) + cmds(v4));
        r
    }
}

proof fn lemma_fixed_positions(ps: Seq<NewPlayer>)
    requires
        ps.len() <= i16::MAX,
    ensures
        hot_marked(positioned(ps)).len() == ps.len(),
        forall|i: int| 0 <= i < ps.len() ==> (#[trigger] hot_marked(positioned(ps))[i]).position == (i + 1) as u16,
{
    crate::sort::lemma_stable_sorted(ps);
    ps.to_multiset_ensures();
    stable_sorted(ps).to_multiset_ensures();
    assert forall|i: int| 0 <= i < ps.len() implies (#[trigger] hot_marked(positioned(ps))[i]).position == (i + 1) as u16 by {
        assert(hot_marked(positioned(ps))[i].position == positioned(ps)[i].position);
    }
}

fn drop_rows(v: Vec<NewPlayer>, pop: usize) -> (r: Vec<NewPlayer>)
    requires
        pop <= v@.len(),
        pop < 65536,
        forall|i: int| pop <= i < v@.len() ==> (#[trigger] v@[i]).position >= pop,
    ensures
        r@ == from_row(v@, Some(pop)),
{
    let ghost s = v@;
    let mut v = v;
    let mut k: usize = 0;
    while k < pop
        invariant
            k <= pop,
            pop <= s.len(),
            v@ == s.skip(k as int),
        decreases pop - k,
    {
        let _ = v.remove(0);
        assert(v@ =~= s.skip(k + 1));
        k = k + 1;
    }
    let n = v.len();
    let mut out: Vec<NewPlayer> = Vec::new();
    let mut i: usize = 0;
    while i < n
        invariant
            i <= n,
            n == s.len() - pop,
            pop <= s.len(),
            pop < 65536,
            forall|j: int| pop <= j < s.len() ==> (#[trigger] s[j]).position >= pop,
            v@ == s.skip(pop as int).subrange(i as int, n as int),
            out@ == from_row(s, Some(pop)).take(i as int),
        decreases n - i,
    {
        let mut p = v.remove(0);
        assert(p == s[pop + i]);
        p.position = p.position - pop as u16;
        out.push(p);
        assert(out@ =~= from_row(s, Some(pop)).take(i + 1));
        i = i + 1;
    }
    assert(from_row(s, Some(pop)).take(n as int) =~= from_row(s, Some(pop)));
    out
}


impl MyApp {
    /// Puts the player with the given id in scorecard slot `idx` for the
    /// round on (see `ScoreCard::set_player`).
    pub fn set_player(&mut self, idx: usize, player: &str) -> (r: Vec<String>)
        requires
            idx >= 1,
            can_set_player(old(self).score_card.all_play_players@, player@, idx, old(self).round_ind),
        ensures
            cmds(r@) == set_player_cmds(old(self).score_card.all_play_players@, player@, idx, old(self).round_ind),
            final(self).score_card.all_play_players@ == old(self).score_card.all_play_players@,
            forall|n: usize| 1 <= n <= 4 ==> #[trigger] slot(final(self).score_card, n) == slot(old(self).score_card, n)
                || (n == idx && last_with_id(old(self).score_card.all_play_players@, player@) is Some
                    && same_player(slot(final(self).score_card, n), placed(last_with_id(old(self).score_card.all_play_players@, player@)->0, idx))),
            (1 <= idx <= 4 && last_with_id(old(self).score_card.all_play_players@, player@) is Some)
                ==> same_player(slot(final(self).score_card, idx), placed(last_with_id(old(self).score_card.all_play_players@, player@)->0, idx)),
            final(self).round_ind == old(self).round_ind,
            final(self).handler == old(self).handler,
    {
        let round = self.round_ind;
        self.score_card.set_player(idx, player, round)
    }
}


proof fn lemma_lb_place_at_most(s: Seq<NewPlayer>, i: int)
    requires
        0 <= i < s.len(),
    ensures
        lb_place(s, i) <= i + 1 || i + 1 == s.len(),
    decreases i,
{
    if i > 0 {
        lemma_lb_place_at_most(s, i - 1);
    }
}

/// The leaderboard lists the players by total (players who did not finish
/// last), each row numbered in turn; players next to each other with equal
/// totals share a place, and places never go down the list.
pub proof fn lemma_positions_share_and_rise(ps: Seq<NewPlayer>, i: int)
    requires
        0 <= i,
        i + 1 < ps.len(),
        ps.len() <= i16::MAX,
    ensures
        board_key(stable_sorted(ps)[i]) <= board_key(stable_sorted(ps)[i + 1]),
        positioned(ps)[i].position == i + 1,
        positioned(ps)[i].total_score == positioned(ps)[i + 1].total_score ==> positioned(ps)[i].lb_pos == positioned(ps)[i + 1].lb_pos,
        positioned(ps)[i].lb_pos <= positioned(ps)[i + 1].lb_pos,
        positioned(ps)[i].lb_pos == 1 || i > 0,
{
    let s = stable_sorted(ps);
    crate::sort::lemma_stable_sorted(ps);
    ps.to_multiset_ensures();
    s.to_multiset_ensures();
    assert(s.len() == ps.len());
    lemma_lb_place_bounds(s, i);
    lemma_lb_place_bounds(s, i + 1);
    lemma_lb_place_at_most(s, i);
    assert(s[i].le_spec(&s[i + 1]));
}


/// Taking back a hole just scored among the first eight puts the same hole
/// back in view, with the round score counted up to the hole before it and
/// the total of the rounds before added, and no throws.
pub proof fn lemma_revert_undoes_score(p: NewPlayer)
    requires
        score_ok(p),
        p.hole <= 7,
        cur_results(p) is Some,
        revert_ok(scored(p)),
    ensures
        reverted(scored(p)).hole == p.hole,
        reverted(scored(p)).round_score == score_sum(cur_results(p)->0, p.hole as int),
        reverted(scored(p)).total_score == before_round(p) + score_sum(cur_results(p)->0, p.hole as int),
        reverted(scored(p)).throws == 0,
        reverted(scored(p)).shift == p.shift,
{
    reveal(scored);
    let q = scored(p);
    let p1 = NewPlayer { first_scored: true, ..p };
    assert(cur_results(q) == cur_results(p));
    assert(before_round(p1) == before_round(p));
}

} // verus!
