//! A player of the event: the scorecard the broadcast shows and how it moves.
use vstd::prelude::*;

use crate::division::Division;
use crate::hole::{find_hole_spec, Hole, Holes};
use crate::leaderboard_prop::{with_number, LeaderBoardProperty};
use crate::round::{first_verified, lemma_first_verified, done_results, HoleResult, KeyedResult, PlayerRound, DEFAULT_FOREGROUND_COL_ALPHA};
use crate::sort::stable_sorted;
use crate::score::{OverarchingScore, Score};
use crate::text::{fix_score, int_to_dec, isize_to_string, join2, nat_to_dec, score_text, usize_to_string};
use crate::vmix::{CurrentPlayer, VMixFunction, VMixInterfacer, VMixPlayerInfo, VMixSelectionTrait};
use crate::score::Image;

verus! {

/// Whether the broadcast runs live or after the event.
#[derive(Clone, Copy, Debug, PartialEq, Eq, Structural)]
pub enum BroadcastType {
    Live,
    PostLive,
}

/// How a player moved on the leaderboard.
#[derive(Clone, Copy, Debug, PartialEq, Eq, Structural)]
pub enum RankUpDown {
    Up(i16),
    Down(i16),
    Same,
}

impl RankUpDown {
    /// The text of the move: the number of places, or nothing.
    pub open spec fn move_text(self) -> Seq<char> {
        match self {
            RankUpDown::Up(v) | RankUpDown::Down(v) => int_to_dec(v as int),
            RankUpDown::Same => Seq::<char>::empty(),
        }
    }

    /// The arrow image of the move.
    pub open spec fn arrow_image(self) -> Seq<char> {
        match self {
            RankUpDown::Up(_) => "C:\\livegrafik-flipup\\greentri.png"@,
            RankUpDown::Down(_) => "C:\\livegrafik-flipup\\redtri.png"@,
            RankUpDown::Same => "C:\\livegrafik-flipup\\alpha.png"@,
        }
    }

    fn get_instructions(&self, pos: usize) -> (r: [VMixInterfacer<LeaderBoardProperty>; 2])
        ensures
            r[0].parts() == (VMixFunction::SetText, Some(LeaderBoardProperty::Move { pos }), Some(self.move_text())),
            r[1].parts() == (VMixFunction::SetImage, Some(LeaderBoardProperty::Arrow { pos }), Some(self.arrow_image())),
    {
        [self.make_move(pos), self.make_arrow(pos)]
    }

    fn make_move(&self, pos: usize) -> (r: VMixInterfacer<LeaderBoardProperty>)
        ensures
            r.parts() == (VMixFunction::SetText, Some(LeaderBoardProperty::Move { pos }), Some(self.move_text())),
    {
        let movement = match self {
            RankUpDown::Up(val) => isize_to_string(*val as isize),
            RankUpDown::Down(val) => isize_to_string(*val as isize),
            RankUpDown::Same => String::new(),
        };
        VMixInterfacer::set_text(movement, LeaderBoardProperty::Move { pos })
    }

    fn make_arrow(&self, pos: usize) -> (r: VMixInterfacer<LeaderBoardProperty>)
        ensures
            r.parts() == (VMixFunction::SetImage, Some(LeaderBoardProperty::Arrow { pos }), Some(self.arrow_image())),
    {
        let img = match self {
            RankUpDown::Up(_) => "C:\\livegrafik-flipup\\greentri.png",
            RankUpDown::Down(_) => "C:\\livegrafik-flipup\\redtri.png",
            RankUpDown::Same => "C:\\livegrafik-flipup\\alpha.png",
        };
        VMixInterfacer::set_image(String::from_str(img), LeaderBoardProperty::Arrow { pos })
    }
}

/// The index of the first result on hole number `n`, from `from` on.
pub open spec fn first_numbered(rs: Seq<HoleResult>, n: int, from: int) -> Option<int>
    decreases rs.len() - from,
{
    if from < 0 || from >= rs.len() {
        None
    } else if rs[from].hole == n {
        Some(from)
    } else {
        first_numbered(rs, n, from + 1)
    }
}

proof fn lemma_first_numbered(rs: Seq<HoleResult>, n: int, from: int)
    requires
        0 <= from,
    ensures
        match first_numbered(rs, n, from) {
            Some(k) => from <= k < rs.len() && rs[k].hole == n,
            None => forall|j: int| from <= j < rs.len() ==> rs[j].hole != n,
        },
    decreases rs.len() - from,
{
    if from < rs.len() && rs[from].hole != n {
        lemma_first_numbered(rs, n, from + 1);
    }
}

fn find_numbered(rs: &Vec<HoleResult>, n: usize) -> (r: Option<usize>)
    ensures
        match first_numbered(rs@, n as int, 0) {
            Some(k) => r matches Some(i) && i as int == k && i < rs@.len(),
            None => r is None,
        },
{
    proof {
        lemma_first_numbered(rs@, n as int, 0);
    }
    let mut i: usize = 0;
    while i < rs.len()
        invariant
            i <= rs@.len(),
            first_numbered(rs@, n as int, 0) == first_numbered(rs@, n as int, i as int),
        decreases rs@.len() - i,
    {
        if rs[i].hole as usize == n {
            return Some(i);
        }
        i = i + 1;
    }
    None
}

/// The three calls that empty the score field of hole `hole`.
pub open spec fn deleted_score(hole: usize) -> Seq<(VMixFunction, Option<VMixPlayerInfo>, Option<Seq<char>>)> {
    seq![
        (VMixFunction::SetText, Some(VMixPlayerInfo::Score { hole, player: 0 }), Some(Seq::<char>::empty())),
        (VMixFunction::SetColor, Some(VMixPlayerInfo::ScoreColor { hole, player: 0 }), Some("#"@ + DEFAULT_FOREGROUND_COL_ALPHA@)),
        (VMixFunction::SetTextVisibleOff, Some(VMixPlayerInfo::Score { hole, player: 0 }), None),
    ]
}

/// The calls that empty the score fields of the given holes, in turn.
pub open spec fn deleted_scores(holes: Seq<usize>) -> Seq<(VMixFunction, Option<VMixPlayerInfo>, Option<Seq<char>>)>
    decreases holes.len(),
{
    if holes.len() == 0 {
        seq![]
    } else {
        deleted_scores(holes.drop_last()) + deleted_score(holes.last())
    }
}

/// The holes after `shown`, up to the eighteenth.
pub open spec fn holes_after(shown: usize) -> Seq<usize> {
    if shown >= 18 {
        seq![]
    } else {
        Seq::new((18 - shown) as nat, |i: int| (shown + 1 + i) as usize)
    }
}

/// Whether a result is neither finished nor verified.
pub open spec fn is_open(r: HoleResult) -> bool {
    !r.finished && !(r.tjing_result matches Some(t) && t.is_verified)
}

/// The parts of a sequence of calls.
pub open spec fn parts_of<T: VMixSelectionTrait>(v: Seq<VMixInterfacer<T>>) -> Seq<(VMixFunction, Option<T>, Option<Seq<char>>)> {
    v.map_values(|c: VMixInterfacer<T>| c.parts())
}

/// A player of the event and the state of their scorecard on the broadcast.
#[derive(Clone, Debug)]
pub struct Player {
    pub player_id: String,
    pub pdga_num: Option<u32>,
    pub name: String,
    pub first_name: String,
    pub surname: String,
    pub rank: RankUpDown,
    pub image_url: Option<String>,
    pub total_score: isize,
    pub round_score: isize,
    pub round_ind: usize,
    pub results: PlayerRound,
    pub hole_shown_up_until: usize,
    pub group_index: usize,
    pub throws: u8,
    pub ob: bool,
    pub position: usize,
    pub lb_even: bool,
    pub hot_round: bool,
    pub lb_pos: usize,
    pub old_pos: usize,
    pub pos_visible: bool,
    pub lb_shown: bool,
    pub dnf: bool,
    pub dns: bool,
    pub first_scored: bool,
    pub visible_player: bool,
    pub division: Division,
    pub image_location: Option<String>,
    pub holes: Holes,
    pub event_number: usize,
    pub broadcast_type: BroadcastType,
}

impl Player {
    /// The results of the round.
    pub open spec fn rs(self) -> Seq<HoleResult> {
        self.results.results@
    }

    /// A player with no name and no results, for empty slots of a title.
    pub fn null_player() -> (r: Self)
        ensures
            r.player_id@ == Seq::<char>::empty(),
            r.name@ == Seq::<char>::empty(),
            r.first_name@ == Seq::<char>::empty(),
            r.surname@ == Seq::<char>::empty(),
            r.rank == RankUpDown::Same,
            r.pdga_num is None,
            r.image_url is None,
            r.image_location is None,
            r.total_score == 0,
            r.round_score == 0,
            r.round_ind == 0,
            r.rs().len() == 0,
            r.hole_shown_up_until == 0,
            r.group_index == 0,
            r.throws == 0,
            r.position == 0,
            r.lb_pos == 0,
            !r.ob && !r.lb_even && !r.hot_round && !r.pos_visible && !r.lb_shown,
            !r.dnf && !r.dns && !r.first_scored && !r.visible_player,
            r.holes.holes@.len() == 0,
            r.broadcast_type == BroadcastType::Live,
    {
        Player {
            player_id: String::new(),
            pdga_num: None,
            name: String::new(),
            first_name: String::new(),
            surname: String::new(),
            rank: RankUpDown::Same,
            image_url: None,
            total_score: 0,
            round_score: 0,
            round_ind: 0,
            results: PlayerRound::empty(),
            hole_shown_up_until: 0,
            group_index: 0,
            throws: 0,
            ob: false,
            position: 0,
            lb_even: false,
            hot_round: false,
            lb_pos: 0,
            old_pos: 0,
            pos_visible: false,
            lb_shown: false,
            dnf: false,
            dns: false,
            first_scored: false,
            visible_player: false,
            division: Division { id: String::new(), name: String::new(), short_name: String::new() },
            image_location: None,
            holes: Holes { holes: Vec::new() },
            event_number: 0,
            broadcast_type: BroadcastType::Live,
        }
    }

    pub fn get_round_total_score(&self) -> (r: isize)
        ensures
            r == self.round_score,
    {
        self.round_score
    }

    /// The score before this round.
    pub fn score_before_round(&self) -> (r: isize)
        requires
            isize::MIN <= self.total_score - self.round_score <= isize::MAX,
        ensures
            r == self.total_score - self.round_score,
    {
        self.total_score - self.round_score
    }

    /// The slot of the player on the scorecard title (there is one).
    pub fn vmix_index(&self) -> (r: usize)
        ensures
            r == 0,
    {
        match self.broadcast_type {
            BroadcastType::Live => 0,
            BroadcastType::PostLive => 0,
        }
    }

    /// A player who did not finish is not shown on the leaderboard.
    pub fn check_if_allowed_to_visible(&mut self)
        ensures
            final(self).lb_shown == (old(self).lb_shown && !old(self).dnf),
            final(self).dnf == old(self).dnf,
            final(self).position == old(self).position,
            final(self).name@ == old(self).name@,
            final(self).rank == old(self).rank,
            final(self).hot_round == old(self).hot_round,
            final(self).round_ind == old(self).round_ind,
            final(self).hole_shown_up_until == old(self).hole_shown_up_until,
            final(self).total_score == old(self).total_score,
            final(self).lb_pos == old(self).lb_pos,
            *final(self) == (Player { lb_shown: old(self).lb_shown && !old(self).dnf, ..*old(self) }),
    {
        if self.dnf {
            self.lb_shown = false;
        }
    }

    /// Sets the first name and the surname.
    pub fn set_name(&self) -> (r: Vec<VMixInterfacer<VMixPlayerInfo>>)
        ensures
            parts_of(r@) == seq![
                (VMixFunction::SetText, Some(VMixPlayerInfo::Name(0)), Some(self.first_name@)),
                (VMixFunction::SetText, Some(VMixPlayerInfo::Surname(0)), Some(self.surname@)),
            ],
    {
        let mut v = Vec::new();
        v.push(VMixInterfacer::set_text(self.first_name.clone(), VMixPlayerInfo::Name(self.vmix_index())));
        v.push(VMixInterfacer::set_text(self.surname.clone(), VMixPlayerInfo::Surname(self.vmix_index())));
        proof {
            assert(parts_of(v@) =~= seq![
                (VMixFunction::SetText, Some(VMixPlayerInfo::Name(0)), Some(self.first_name@)),
                (VMixFunction::SetText, Some(VMixPlayerInfo::Surname(0)), Some(self.surname@)),
            ]);
        }
        v
    }

    /// How many holes count as played.
    pub fn amount_of_holes_finished(&self) -> (r: usize)
        ensures
            r == done_results(self.rs()).len(),
    {
        let ghost pred = |r: HoleResult| r.is_done();
        let mut count: usize = 0;
        let mut i: usize = 0;
        while i < self.results.results.len()
            invariant
                i <= self.rs().len(),
                pred == (|r: HoleResult| r.is_done()),
                count == self.rs().take(i as int).filter(pred).len(),
                count <= i,
            decreases self.rs().len() - i,
        {
            proof {
                assert(self.rs().take(i + 1) =~= self.rs().take(i as int).push(self.rs()[i as int]));
                self.rs().take(i as int).lemma_filter_push(self.rs()[i as int], pred);
            }
            let r = self.results.results[i];
            let done = r.finished || (match r.tjing_result {
                Some(t) => t.is_verified,
                None => false,
            }) || r.throws != 0;
            if done {
                count = count + 1;
            }
            i = i + 1;
        }
        proof {
            assert(self.rs().take(self.rs().len() as int) =~= self.rs());
        }
        count
    }

    /// The scores of the player so far.
    pub fn overarching_score_representation(&self) -> (r: OverarchingScore)
        ensures
            r.round == self.round_ind,
            r.round_score == self.round_score,
            r.player == 0,
            r.total_score == self.total_score,
    {
        OverarchingScore::new(self.round_ind, self.round_score, self.vmix_index(), self.total_score)
    }

    /// The score on hole number `hole + 1`.
    pub fn get_score(&self, hole: usize) -> (r: Result<Score, crate::error::Error>)
        requires
            hole < usize::MAX,
            first_numbered(self.rs(), hole + 1, 0) matches Some(i) ==> self.rs()[i].fits(),
        ensures
            match first_numbered(self.rs(), hole + 1, 0) {
                Some(i) => r matches Ok(s) && s.throws_of() == self.rs()[i].counted_throws() as i8
                    && s.par_of() == self.rs()[i].hole_representation.par as i8
                    && s.hole_of() == self.rs()[i].hole,
                None => r matches Err(crate::error::Error::NoScoreFound { player, hole: h })
                    && player@ == self.name@ && h == hole,
            },
    {
        match find_numbered(&self.results.results, hole + 1) {
            Some(i) => Ok(self.results.results[i].to_score()),
            None => Err(crate::error::Error::NoScoreFound { player: self.name.clone(), hole }),
        }
    }

    /// Sets the total score.
    pub fn set_tot_score(&self) -> (r: VMixInterfacer<VMixPlayerInfo>)
        ensures
            r.parts() == (VMixFunction::SetText, Some(VMixPlayerInfo::TotalScore(0)), Some(score_text(self.total_score as int))),
    {
        VMixInterfacer::set_text(fix_score(self.total_score), VMixPlayerInfo::TotalScore(self.vmix_index()))
    }

    /// Sets the round score, in brackets.
    pub fn set_round_score(&self) -> (r: VMixInterfacer<VMixPlayerInfo>)
        ensures
            r.parts() == (VMixFunction::SetText, Some(VMixPlayerInfo::RoundScore(0)),
                Some("("@ + score_text(self.round_score as int) + ")"@)),
    {
        let text = join2("(", fix_score(self.round_score).as_str()).concat(")");
        VMixInterfacer::set_text(text, VMixPlayerInfo::RoundScore(self.vmix_index()))
    }

    /// Sets the throws on the current hole.
    pub fn set_throw(&self) -> (r: VMixInterfacer<VMixPlayerInfo>)
        ensures
            r.parts() == (VMixFunction::SetText, Some(VMixPlayerInfo::Throw(0)), Some(nat_to_dec(self.throws as nat))),
    {
        VMixInterfacer::set_text(usize_to_string(self.throws as usize), VMixPlayerInfo::Throw(self.vmix_index()))
    }

    /// Empties the score field of hole `hole`.
    pub fn del_score(&self, hole: usize) -> (r: Vec<VMixInterfacer<VMixPlayerInfo>>)
        ensures
            parts_of(r@) == deleted_score(hole),
    {
        let score_prop = VMixPlayerInfo::Score { hole, player: self.vmix_index() };
        let col_prop = VMixPlayerInfo::ScoreColor { hole, player: self.vmix_index() };
        let mut v = Vec::new();
        v.push(VMixInterfacer::set_text(String::new(), score_prop));
        v.push(VMixInterfacer::set_color(DEFAULT_FOREGROUND_COL_ALPHA, col_prop));
        v.push(VMixInterfacer::set_text_visible_off(score_prop));
        proof {
            assert(parts_of(v@) =~= deleted_score(hole));
        }
        v
    }

    /// Empties the score field of the hole after the last one shown.
    pub fn del_current_score(&self) -> (r: Vec<VMixInterfacer<VMixPlayerInfo>>)
        requires
            self.hole_shown_up_until < usize::MAX,
        ensures
            parts_of(r@) == deleted_score((self.hole_shown_up_until + 1) as usize),
    {
        self.del_score(self.hole_shown_up_until + 1)
    }

    /// Empties the score fields of the holes not played: with `show_max`,
    /// those of the results that are neither finished nor verified, else those
    /// after the last hole shown.
    pub fn delete_all_scores_after_current(&self, show_max: bool) -> (r: Vec<VMixInterfacer<VMixPlayerInfo>>)
        ensures
            show_max ==> parts_of(r@) == deleted_scores(
                self.rs().filter(|x: HoleResult| is_open(x)).map_values(|x: HoleResult| x.hole as usize),
            ),
            !show_max ==> parts_of(r@) == deleted_scores(holes_after(self.hole_shown_up_until)),
    {
        let mut out: Vec<VMixInterfacer<VMixPlayerInfo>> = Vec::new();
        if show_max {
            let ghost pred = |x: HoleResult| is_open(x);
            let ghost number = |x: HoleResult| x.hole as usize;
            let mut i: usize = 0;
            while i < self.results.results.len()
                invariant
                    i <= self.rs().len(),
                    pred == (|x: HoleResult| is_open(x)),
                    number == (|x: HoleResult| x.hole as usize),
                    parts_of(out@) == deleted_scores(self.rs().take(i as int).filter(pred).map_values(number)),
                decreases self.rs().len() - i,
            {
                proof {
                    assert(self.rs().take(i + 1) =~= self.rs().take(i as int).push(self.rs()[i as int]));
                    self.rs().take(i as int).lemma_filter_push(self.rs()[i as int], pred);
                }
                let x = self.results.results[i];
                let verified = match x.tjing_result {
                    Some(t) => t.is_verified,
                    None => false,
                };
                if !x.finished && !verified {
                    let d = self.del_score(x.hole as usize);
                    let ghost before = out@;
                    let mut d = d;
                    out.append(&mut d);
                    proof {
                        let hs = self.rs().take(i as int).filter(pred).map_values(number);
                        assert(self.rs().take(i + 1).filter(pred).map_values(number) =~= hs.push(x.hole as usize));
                        assert(hs.push(x.hole as usize).drop_last() =~= hs);
                        assert(parts_of(out@) =~= parts_of(before) + deleted_score(x.hole as usize));
                    }
                }
                i = i + 1;
            }
            proof {
                assert(self.rs().take(self.rs().len() as int) =~= self.rs());
            }
        } else {
            if self.hole_shown_up_until < 18 {
                let mut hole: usize = self.hole_shown_up_until + 1;
                while hole <= 18
                    invariant
                        self.hole_shown_up_until < hole <= 19,
                        parts_of(out@) == deleted_scores(holes_after(self.hole_shown_up_until).take(hole - self.hole_shown_up_until - 1)),
                    decreases 19 - hole,
                {
                    let d = self.del_score(hole);
                    let ghost before = out@;
                    let mut d = d;
                    out.append(&mut d);
                    proof {
                        let all = holes_after(self.hole_shown_up_until);
                        let k = hole - self.hole_shown_up_until - 1;
                        assert(all.take(k + 1).drop_last() =~= all.take(k));
                        assert(all.take(k + 1).last() == hole);
                        assert(parts_of(out@) =~= parts_of(before) + deleted_score(hole));
                    }
                    hole = hole + 1;
                }
                proof {
                    let all = holes_after(self.hole_shown_up_until);
                    assert(all.take(all.len() as int) =~= all);
                }
            } else {
                proof {
                    assert(parts_of(out@) =~= seq![]);
                }
            }
        }
        out
    }
}

/// A hole entered on site with the given throws.
pub open spec fn entered_result(number: u8, throws: u8, holes: Seq<Hole>, finished: bool) -> HoleResult {
    HoleResult {
        hole: number,
        throws,
        hole_representation: find_hole_spec(holes, number)->0,
        tjing_result: None,
        finished,
    }
}

/// The results once the score shown after hole `shown` is looked up: where
/// the next hole has no result, one is entered (before the eighteenth hole).
pub open spec fn shown_results_in(rs: Seq<HoleResult>, shown: usize, throws: u8, holes: Seq<Hole>) -> Seq<HoleResult> {
    match first_numbered(rs, shown + 1, 0) {
        Some(_) => rs,
        None => if shown < 18 {
            rs.push(entered_result((shown + 1) as u8, throws, holes, false))
        } else {
            rs
        },
    }
}

/// The result whose score is shown after hole `shown`.
pub open spec fn shown_result_in(rs: Seq<HoleResult>, shown: usize, throws: u8, holes: Seq<Hole>) -> HoleResult {
    match first_numbered(rs, shown + 1, 0) {
        Some(i) => rs[i],
        None => shown_results_in(rs, shown, throws, holes).last(),
    }
}

/// Whether the score shown after hole `shown` can be looked up.
pub open spec fn can_show_in(rs: Seq<HoleResult>, shown: usize, throws: u8, holes: Seq<Hole>) -> bool {
    &&& shown < usize::MAX
    &&& first_numbered(rs, shown + 1, 0) is None ==> {
        &&& shown < 18 ==> rs.len() < 18 && find_hole_spec(holes, (shown + 1) as u8) is Some
        &&& shown >= 18 ==> rs.len() > 0
    }
    &&& shown_result_in(rs, shown, throws, holes).fits()
}

/// The results once the hole after `shown` is scored with `throws`: an
/// existing result stays, a verified report takes the throws, or the hole is
/// entered.
pub open spec fn scored_results(rs: Seq<HoleResult>, shown: usize, throws: u8, holes: Seq<Hole>) -> Seq<HoleResult> {
    match first_numbered(rs, shown + 1, 0) {
        Some(_) => rs,
        None => match first_verified(rs, (shown + 1) as usize, 0) {
            Some(j) => rs.update(j, HoleResult {
                hole: rs[j].hole,
                throws,
                hole_representation: rs[j].hole_representation,
                tjing_result: rs[j].tjing_result,
                finished: true,
            }),
            None => rs.push(entered_result(((shown as u8) + 1) as u8, throws, holes, true)),
        },
    }
}

/// The result whose score is counted when the hole after `shown` is scored.
pub open spec fn scored_result(rs: Seq<HoleResult>, shown: usize, throws: u8, holes: Seq<Hole>) -> HoleResult {
    match first_numbered(rs, shown + 1, 0) {
        Some(i) => rs[i],
        None => match first_verified(rs, (shown + 1) as usize, 0) {
            Some(j) => scored_results(rs, shown, throws, holes)[j],
            None => scored_results(rs, shown, throws, holes).last(),
        },
    }
}

/// Whether the hole after `shown` can be scored.
pub open spec fn can_score(rs: Seq<HoleResult>, shown: usize, throws: u8, holes: Seq<Hole>) -> bool {
    &&& shown < usize::MAX
    &&& (first_numbered(rs, shown + 1, 0) is None && first_verified(rs, (shown + 1) as usize, 0) is None) ==> {
        &&& rs.len() < 18
        &&& (shown as u8) < 255
        &&& find_hole_spec(holes, ((shown as u8) + 1) as u8) is Some
    }
    &&& scored_result(rs, shown, throws, holes).fits()
    &&& can_show_in(scored_results(rs, shown, throws, holes), shown, throws, holes)
}

/// The results after the last result is taken back.
pub open spec fn reverted_results(rs: Seq<HoleResult>) -> Seq<HoleResult> {
    if rs.len() > 0 {
        rs.drop_last()
    } else {
        rs
    }
}

/// The calls that set, show and colour the score field of a result.
pub open spec fn score_update(h: HoleResult) -> Seq<(VMixFunction, Option<VMixPlayerInfo>, Option<Seq<char>>)> {
    seq![
        (VMixFunction::SetText, Some(VMixPlayerInfo::Score { hole: h.hole as usize, player: 0 }), Some(score_text(h.relative()))),
        (VMixFunction::SetTextVisibleOn, Some(VMixPlayerInfo::Score { hole: h.hole as usize, player: 0 }), None),
        (VMixFunction::SetColor, Some(VMixPlayerInfo::ScoreColor { hole: h.hole as usize, player: 0 }), Some("#"@ + h.readable().colour())),
    ]
}

/// The calls that set the round score: shown in brackets after the first
/// round, hidden in it.
pub open spec fn round_score_update(round: usize, score: isize) -> Seq<(VMixFunction, Option<VMixPlayerInfo>, Option<Seq<char>>)> {
    if round > 0 {
        seq![
            (VMixFunction::SetText, Some(VMixPlayerInfo::RoundScore(0)), Some("("@ + score_text(score as int) + ")"@)),
            (VMixFunction::SetTextVisibleOn, Some(VMixPlayerInfo::RoundScore(0)), None),
        ]
    } else {
        seq![(VMixFunction::SetTextVisibleOff, Some(VMixPlayerInfo::RoundScore(0)), None)]
    }
}

/// The calls that set the total score.
pub open spec fn total_score_update(score: isize) -> (VMixFunction, Option<VMixPlayerInfo>, Option<Seq<char>>) {
    (VMixFunction::SetText, Some(VMixPlayerInfo::TotalScore(0)), Some(score_text(score as int)))
}

/// Whether a player is a copy of another: the same values, the lists of
/// results and holes with the same contents.
pub open spec fn copy_of(a: Player, b: Player) -> bool {
    &&& a.player_id == b.player_id
    &&& a.pdga_num == b.pdga_num
    &&& a.name == b.name
    &&& a.first_name == b.first_name
    &&& a.surname == b.surname
    &&& a.rank == b.rank
    &&& a.image_url == b.image_url
    &&& a.round_ind == b.round_ind
    &&& a.results.start_at_hole == b.results.start_at_hole
    &&& a.results.finished == b.results.finished
    &&& a.results.round == b.results.round
    &&& a.group_index == b.group_index
    &&& a.ob == b.ob
    &&& a.position == b.position
    &&& a.lb_even == b.lb_even
    &&& a.hot_round == b.hot_round
    &&& a.lb_pos == b.lb_pos
    &&& a.old_pos == b.old_pos
    &&& a.pos_visible == b.pos_visible
    &&& a.lb_shown == b.lb_shown
    &&& a.dnf == b.dnf
    &&& a.dns == b.dns
    &&& a.visible_player == b.visible_player
    &&& a.division == b.division
    &&& a.image_location == b.image_location
    &&& a.rs() == b.rs()
    &&& a.holes.holes@ == b.holes.holes@
    &&& a.total_score == b.total_score
    &&& a.round_score == b.round_score
    &&& a.hole_shown_up_until == b.hole_shown_up_until
    &&& a.throws == b.throws
    &&& a.first_scored == b.first_scored
    &&& a.event_number == b.event_number
    &&& a.broadcast_type == b.broadcast_type
}

/// Whether one list of players is, player by player, a copy of another.
pub open spec fn copies(a: Seq<Player>, b: Seq<Player>) -> bool {
    a.len() == b.len() && forall|i: int| 0 <= i < a.len() ==> copy_of(#[trigger] a[i], b[i])
}

fn copy_text(s: &Option<String>) -> (r: Option<String>)
    ensures
        r == *s,
{
    match s {
        Some(t) => Some(t.clone()),
        None => None,
    }
}

impl Player {
    /// A copy of the player.
    pub fn duplicate(&self) -> (r: Player)
        ensures
            copy_of(r, *self),
    {
        let mut results: Vec<HoleResult> = Vec::new();
        let mut i: usize = 0;
        while i < self.results.results.len()
            invariant
                i <= self.rs().len(),
                results@ =~= self.rs().take(i as int),
            decreases self.rs().len() - i,
        {
            results.push(self.results.results[i]);
            i = i + 1;
        }
        proof {
            assert(self.rs().take(self.rs().len() as int) =~= self.rs());
        }
        Player {
            player_id: self.player_id.clone(),
            pdga_num: self.pdga_num,
            name: self.name.clone(),
            first_name: self.first_name.clone(),
            surname: self.surname.clone(),
            rank: self.rank,
            image_url: copy_text(&self.image_url),
            total_score: self.total_score,
            round_score: self.round_score,
            round_ind: self.round_ind,
            results: PlayerRound {
                results,
                start_at_hole: self.results.start_at_hole,
                finished: self.results.finished,
                round: self.results.round,
            },
            hole_shown_up_until: self.hole_shown_up_until,
            group_index: self.group_index,
            throws: self.throws,
            ob: self.ob,
            position: self.position,
            lb_even: self.lb_even,
            hot_round: self.hot_round,
            lb_pos: self.lb_pos,
            old_pos: self.old_pos,
            pos_visible: self.pos_visible,
            lb_shown: self.lb_shown,
            dnf: self.dnf,
            dns: self.dns,
            first_scored: self.first_scored,
            visible_player: self.visible_player,
            division: self.division.duplicate(),
            image_location: copy_text(&self.image_location),
            holes: self.holes.duplicate(),
            event_number: self.event_number,
            broadcast_type: self.broadcast_type,
        }
    }
}

/// Whether two players agree on all but the state of their scorecard.
pub open spec fn same_player(a: Player, b: Player) -> bool {
    &&& a.player_id == b.player_id
    &&& a.pdga_num == b.pdga_num
    &&& a.name == b.name
    &&& a.first_name == b.first_name
    &&& a.surname == b.surname
    &&& a.rank == b.rank
    &&& a.image_url == b.image_url
    &&& a.round_ind == b.round_ind
    &&& a.results.start_at_hole == b.results.start_at_hole
    &&& a.results.finished == b.results.finished
    &&& a.results.round == b.results.round
    &&& a.group_index == b.group_index
    &&& a.ob == b.ob
    &&& a.position == b.position
    &&& a.lb_even == b.lb_even
    &&& a.hot_round == b.hot_round
    &&& a.lb_pos == b.lb_pos
    &&& a.old_pos == b.old_pos
    &&& a.pos_visible == b.pos_visible
    &&& a.lb_shown == b.lb_shown
    &&& a.dnf == b.dnf
    &&& a.dns == b.dns
    &&& a.visible_player == b.visible_player
    &&& a.division == b.division
    &&& a.image_location == b.image_location
    &&& a.holes == b.holes
    &&& a.event_number == b.event_number
    &&& a.broadcast_type == b.broadcast_type
}

impl Player {
    /// The score shown for the hole after the last one shown; where that hole
    /// has no result, it is entered with the current throws (before the
    /// eighteenth hole), and the last result is shown.
    pub fn get_current_shown_score(&mut self) -> (s: Score)
        requires
            can_show_in(old(self).rs(), old(self).hole_shown_up_until, old(self).throws, old(self).holes.holes@),
        ensures
            same_player(*final(self), *old(self)),
            final(self).rs() == shown_results_in(old(self).rs(), old(self).hole_shown_up_until, old(self).throws, old(self).holes.holes@),
            final(self).hole_shown_up_until == old(self).hole_shown_up_until,
            final(self).throws == old(self).throws,
            final(self).round_score == old(self).round_score,
            final(self).total_score == old(self).total_score,
            final(self).first_scored == old(self).first_scored,
            ({
                let h = shown_result_in(old(self).rs(), old(self).hole_shown_up_until, old(self).throws, old(self).holes.holes@);
                &&& s.hole_of() == h.hole
                &&& s.relative() == h.relative()
                &&& s.readable() == h.readable()
            }),
    {
        match find_numbered(&self.results.results, self.hole_shown_up_until + 1) {
            Some(i) => self.results.results[i].to_score(),
            None => {
                if self.hole_shown_up_until < 18 {
                    let number = (self.hole_shown_up_until + 1) as u8;
                    let _ = self.results.add_new_hole(&self.holes, number, self.throws);
                }
                let n = self.results.results.len();
                self.results.results[n - 1].to_score()
            },
        }
    }

    /// Scores the hole after the last one shown (see `scored_results`) and
    /// gives the score that counts.
    fn score_current_hole(&mut self) -> (s: Score)
        requires
            can_score(old(self).rs(), old(self).hole_shown_up_until, old(self).throws, old(self).holes.holes@),
        ensures
            same_player(*final(self), *old(self)),
            final(self).rs() == scored_results(old(self).rs(), old(self).hole_shown_up_until, old(self).throws, old(self).holes.holes@),
            s.relative() == scored_result(old(self).rs(), old(self).hole_shown_up_until, old(self).throws, old(self).holes.holes@).relative(),
            final(self).hole_shown_up_until == old(self).hole_shown_up_until,
            final(self).throws == old(self).throws,
            final(self).round_score == old(self).round_score,
            final(self).total_score == old(self).total_score,
            final(self).first_scored == old(self).first_scored,
    {
        let shown = self.hole_shown_up_until;
        let ghost c = scored_result(old(self).rs(), shown, old(self).throws, old(self).holes.holes@);
        let ghost rs1 = scored_results(old(self).rs(), shown, old(self).throws, old(self).holes.holes@);
        match find_numbered(&self.results.results, shown + 1) {
            Some(i) => self.results.results[i].to_score(),
            None => {
                let throws = self.throws;
                let t = self.results.current_result_mut(shown + 1);
                match t {
                    Some(t) => {
                        proof {
                            lemma_first_verified(old(self).rs(), (shown + 1) as usize, 0);
                        }
                        t.throws = throws;
                        t.finished = true;
                        proof {
                            let j = first_verified(old(self).rs(), (shown + 1) as usize, 0)->0;
                            assert(rs1[j] == *t);
                        }
                        t.to_score()
                    },
                    None => {
                        let number = (#[verifier::truncate] (shown as u8)) + 1;
                        let _ = self.results.add_new_hole(&self.holes, number, throws);
                        let n = self.results.results.len();
                        let mut last = self.results.results[n - 1];
                        last.throws = throws;
                        last.finished = true;
                        self.results.results.set(n - 1, last);
                        assert(self.rs() =~= rs1);
                        last.to_score()
                    },
                }
            },
        }
    }

    /// Scores the hole after the last one shown with the current throws: the
    /// score is added to the round and the total, the score field is set, the
    /// next hole becomes current and the throws start again at zero.
    pub fn increase_score(&mut self) -> (r: Result<Vec<VMixInterfacer<VMixPlayerInfo>>, crate::error::Error>)
        requires
            can_score(old(self).rs(), old(self).hole_shown_up_until, old(self).throws, old(self).holes.holes@),
            ({
                let c = scored_result(old(self).rs(), old(self).hole_shown_up_until, old(self).throws, old(self).holes.holes@);
                &&& isize::MIN <= old(self).round_score + c.relative() <= isize::MAX
                &&& isize::MIN <= old(self).total_score + c.relative() <= isize::MAX
            }),
            old(self).hole_shown_up_until + 1 < usize::MAX,
        ensures
            same_player(*final(self), *old(self)),
            ({
                let rs = old(self).rs();
                let shown = old(self).hole_shown_up_until;
                let throws = old(self).throws;
                let holes = old(self).holes.holes@;
                let c = scored_result(rs, shown, throws, holes);
                let rs1 = scored_results(rs, shown, throws, holes);
                let h = shown_result_in(rs1, shown, throws, holes);
                &&& final(self).rs() == shown_results_in(rs1, shown, throws, holes)
                &&& final(self).round_score == old(self).round_score + c.relative()
                &&& final(self).total_score == old(self).total_score + c.relative()
                &&& final(self).hole_shown_up_until == shown + 1
                &&& final(self).throws == 0
                &&& final(self).first_scored
                &&& r matches Ok(v) && parts_of(v@) == score_update(h) + seq![total_score_update(final(self).total_score)]
                    + round_score_update(old(self).round_ind, final(self).round_score)
                    + seq![(VMixFunction::SetText, Some(VMixPlayerInfo::Throw(0)), Some(nat_to_dec(0)))]
            }),
    {
        self.first_scored = true;
        let shown = self.hole_shown_up_until;
        let ghost c = scored_result(old(self).rs(), shown, old(self).throws, old(self).holes.holes@);
        let ghost rs1 = scored_results(old(self).rs(), shown, old(self).throws, old(self).holes.holes@);
        let s = self.score_current_hole();
        assert(s.relative() == c.relative());
        assert(self.rs() == rs1);
        let shown_score = self.get_current_shown_score();
        let mut score_calls = shown_score.update_score(self.vmix_index());
        let points = s.par_score() as isize;
        self.round_score = self.round_score + points;
        self.total_score = self.total_score + points;
        let mut out: Vec<VMixInterfacer<VMixPlayerInfo>> = Vec::new();
        out.append(&mut score_calls);
        let overarching = self.overarching_score_representation();
        out.push(self.set_tot_score());
        let mut round = overarching.set_round_score();
        out.append(&mut round);
        self.hole_shown_up_until = self.hole_shown_up_until + 1;
        self.throws = 0;
        out.push(self.set_throw());
        proof {
            let rs = old(self).rs();
            let holes = old(self).holes.holes@;
            let rs1 = scored_results(rs, shown, old(self).throws, holes);
            let h = shown_result_in(rs1, shown, old(self).throws, holes);
            assert(parts_of(out@) =~= score_update(h) + seq![total_score_update(self.total_score)]
                + round_score_update(old(self).round_ind, self.round_score)
                + seq![(VMixFunction::SetText, Some(VMixPlayerInfo::Throw(0)), Some(nat_to_dec(0)))]);
        }
        Ok(out)
    }

    /// Takes back the last hole shown: its score is emptied and taken off the
    /// round and the total, and the last result is removed.
    pub fn revert_hole_score(&mut self) -> (r: Vec<VMixInterfacer<VMixPlayerInfo>>)
        requires
            old(self).hole_shown_up_until > 0 ==> {
                let k = old(self).hole_shown_up_until - 1;
                let d = crate::round::hole_score_at(old(self).rs(), k);
                &&& k < old(self).rs().len() ==> old(self).rs()[k].fits()
                &&& isize::MIN <= old(self).round_score - d <= isize::MAX
                &&& isize::MIN <= old(self).total_score - d <= isize::MAX
            },
        ensures
            same_player(*final(self), *old(self)),
            final(self).throws == old(self).throws,
            final(self).first_scored == old(self).first_scored,
            old(self).hole_shown_up_until == 0 ==> {
                &&& r@.len() == 0
                &&& final(self).rs() == old(self).rs()
                &&& final(self).hole_shown_up_until == 0
                &&& final(self).round_score == old(self).round_score
                &&& final(self).total_score == old(self).total_score
            },
            old(self).hole_shown_up_until > 0 ==> {
                let k = (old(self).hole_shown_up_until - 1) as usize;
                let d = crate::round::hole_score_at(old(self).rs(), k as int);
                &&& final(self).hole_shown_up_until == k
                &&& final(self).rs() == reverted_results(old(self).rs())
                &&& final(self).round_score == old(self).round_score - d
                &&& final(self).total_score == old(self).total_score - d
                &&& parts_of(r@) == deleted_score((k + 1) as usize) + seq![total_score_update(final(self).total_score)]
                    + round_score_update(old(self).round_ind, final(self).round_score)
            },
    {
        let mut out: Vec<VMixInterfacer<VMixPlayerInfo>> = Vec::new();
        if self.hole_shown_up_until > 0 {
            self.hole_shown_up_until = self.hole_shown_up_until - 1;
            let mut del = self.del_current_score();
            out.append(&mut del);
            let result = self.results.hole_score(self.hole_shown_up_until);
            let _ = self.results.results.pop();
            self.round_score = self.round_score - result;
            self.total_score = self.total_score - result;
            out.push(self.set_tot_score());
            let mut round = self.overarching_score_representation().set_round_score();
            out.append(&mut round);
            proof {
                let k = self.hole_shown_up_until;
                assert(parts_of(out@) =~= deleted_score((k + 1) as usize) + seq![total_score_update(self.total_score)]
                    + round_score_update(old(self).round_ind, self.round_score));
                assert(self.rs() =~= reverted_results(old(self).rs()));
            }
        } else {
            proof {
                assert(parts_of(out@) =~= seq![]);
            }
        }
        out
    }
}

proof fn lemma_no_verified(rs: Seq<HoleResult>, n: usize, from: int)
    requires
        0 <= from,
        forall|i: int| 0 <= i < rs.len() ==> #[trigger] rs[i].tjing_result is None,
    ensures
        first_verified(rs, n, from) is None,
    decreases rs.len() - from,
{
    if from < rs.len() {
        lemma_no_verified(rs, n, from + 1);
    }
}

/// Scoring the next hole of a round entered on site and taking it back again
/// leaves the results as they were, and takes back exactly the score that was
/// added: the round score, the total and the hole shown are restored.
pub proof fn lemma_revert_undoes_increase(
    rs: Seq<HoleResult>,
    shown: usize,
    throws: u8,
    holes: Seq<Hole>,
    round: isize,
    total: isize,
)
    requires
        shown < 18,
        rs.len() == shown,
        forall|i: int| 0 <= i < rs.len() ==> #[trigger] rs[i].hole == i + 1 && rs[i].tjing_result is None,
        find_hole_spec(holes, (shown + 1) as u8) is Some,
        entered_result((shown + 1) as u8, throws, holes, true).fits(),
    ensures
        can_score(rs, shown, throws, holes),
        ({
            let rs1 = scored_results(rs, shown, throws, holes);
            let c = scored_result(rs, shown, throws, holes);
            let rs2 = shown_results_in(rs1, shown, throws, holes);
            let d = crate::round::hole_score_at(rs2, shown as int);
            &&& reverted_results(rs2) == rs
            &&& d == c.relative()
            &&& (round + c.relative()) - d == round
            &&& (total + c.relative()) - d == total
            &&& ((shown + 1) - 1) as usize == shown
        }),
{
    lemma_first_numbered(rs, shown + 1, 0);
    lemma_no_verified(rs, (shown + 1) as usize, 0);
    assert((shown as u8) == shown);
    let e = entered_result((shown + 1) as u8, throws, holes, true);
    let rs1 = scored_results(rs, shown, throws, holes);
    assert(rs1 == rs.push(e));
    lemma_first_numbered(rs1, shown + 1, 0);
    assert(rs1[shown as int].hole == shown + 1);
    if first_numbered(rs1, shown + 1, 0) != Some(shown as int) {
        let k = first_numbered(rs1, shown + 1, 0)->0;
        assert(rs1[k] == rs[k]);
    }
    assert(rs.push(e).drop_last() =~= rs);
}

/// Scoring the next hole of a round entered on site (the player state `p1`
/// after `increase_score` from `p0`) and taking it back (`p2` after
/// `revert_hole_score` from `p1`) leaves the hole shown, the round score, the
/// total and the results as they were, with the throws at zero.
pub proof fn lemma_score_then_revert(p0: Player, p1: Player, p2: Player)
    requires
        p0.hole_shown_up_until < 18,
        p0.rs().len() == p0.hole_shown_up_until,
        forall|i: int| 0 <= i < p0.rs().len() ==> #[trigger] p0.rs()[i].hole == i + 1 && p0.rs()[i].tjing_result is None,
        find_hole_spec(p0.holes.holes@, (p0.hole_shown_up_until + 1) as u8) is Some,
        entered_result((p0.hole_shown_up_until + 1) as u8, p0.throws, p0.holes.holes@, true).fits(),
        ({
            let rs = p0.rs();
            let shown = p0.hole_shown_up_until;
            let holes = p0.holes.holes@;
            let c = scored_result(rs, shown, p0.throws, holes);
            let rs1 = scored_results(rs, shown, p0.throws, holes);
            &&& p1.rs() == shown_results_in(rs1, shown, p0.throws, holes)
            &&& p1.round_score == p0.round_score + c.relative()
            &&& p1.total_score == p0.total_score + c.relative()
            &&& p1.hole_shown_up_until == shown + 1
            &&& p1.throws == 0
        }),
        ({
            let k = (p1.hole_shown_up_until - 1) as usize;
            let d = crate::round::hole_score_at(p1.rs(), k as int);
            &&& p2.hole_shown_up_until == k
            &&& p2.rs() == reverted_results(p1.rs())
            &&& p2.round_score == p1.round_score - d
            &&& p2.total_score == p1.total_score - d
            &&& p2.throws == p1.throws
        }),
    ensures
        p2.hole_shown_up_until == p0.hole_shown_up_until,
        p2.round_score == p0.round_score,
        p2.total_score == p0.total_score,
        p2.rs() == p0.rs(),
        p2.throws == 0,
{
    lemma_revert_undoes_increase(
        p0.rs(),
        p0.hole_shown_up_until,
        p0.throws,
        p0.holes.holes@,
        p0.round_score,
        p0.total_score,
    );
}

/// The sum of the scores on the first `n` results.
pub open spec fn relative_sum(rs: Seq<HoleResult>, n: int) -> int
    decreases n,
{
    if n <= 0 {
        0
    } else {
        relative_sum(rs, n - 1) + rs[n - 1].relative()
    }
}

/// How many results count toward the round score: all of them, or those
/// before index `up_until`.
pub open spec fn counted_holes(len: int, up_until: Option<u8>) -> int {
    match up_until {
        Some(u) => if (u as int) < len { u as int } else { len },
        None => len,
    }
}

/// The current-player calls of scorecard calls: score fields are left out.
pub open spec fn current_calls(s: Seq<(VMixFunction, Option<VMixPlayerInfo>, Option<Seq<char>>)>) -> Seq<(VMixFunction, Option<CurrentPlayer>, Option<Seq<char>>)>
    decreases s.len(),
{
    if s.len() == 0 {
        seq![]
    } else {
        let (f, i, v) = s.last();
        current_calls(s.drop_last()) + match i {
            Some(VMixPlayerInfo::Score { .. }) | Some(VMixPlayerInfo::ScoreColor { .. }) | None => seq![],
            Some(x) => seq![(f, Some(CurrentPlayer(x)), v)],
        }
    }
}

/// The current-player calls that show the latest holes, column by column.
pub open spec fn latest_calls(latest: Seq<Option<HoleResult>>) -> Seq<(VMixFunction, Option<CurrentPlayer>, Option<Seq<char>>)>
    decreases latest.len(),
{
    if latest.len() == 0 {
        seq![]
    } else {
        let column = latest.len() as usize;
        latest_calls(latest.drop_last()) + match latest.last() {
            Some(h) => seq![
                (VMixFunction::SetText, Some(CurrentPlayer(VMixPlayerInfo::Score { player: 0, hole: column })), Some(score_text(h.relative()))),
                (VMixFunction::SetColor, Some(CurrentPlayer(VMixPlayerInfo::ScoreColor { player: 0, hole: column })), Some("#"@ + h.readable().colour())),
            ],
            None => seq![
                (VMixFunction::SetText, Some(CurrentPlayer(VMixPlayerInfo::Score { player: 0, hole: column })), Some(Seq::<char>::empty())),
                (VMixFunction::SetColor, Some(CurrentPlayer(VMixPlayerInfo::ScoreColor { player: 0, hole: column })), Some("#"@ + DEFAULT_FOREGROUND_COL_ALPHA@)),
            ],
        }
    }
}

/// The last six holes played, in order, padded with `None`.
pub open spec fn latest_six(p: PlayerRound) -> Seq<Option<HoleResult>> {
    latest_holes(p, 6)
}

/// The last `n` holes played, in order, padded with `None`.
pub open spec fn latest_holes(p: PlayerRound, n: nat) -> Seq<Option<HoleResult>> {
    let order = p.completion_order();
    let k = if n < order.len() { n as int } else { order.len() as int };
    Seq::new(n, |i: int| if i < k { Some(order[order.len() - k + i]) } else { None })
}

impl Player {
    /// Empties the score fields after the hole shown, and starts the round
    /// again: nothing is shown and the round score is zero; the total stays.
    pub fn reset_scores(&mut self) -> (r: Vec<VMixInterfacer<VMixPlayerInfo>>)
        ensures
            same_player(*final(self), *old(self)),
            final(self).rs() == old(self).rs(),
            final(self).throws == old(self).throws,
            final(self).first_scored == old(self).first_scored,
            final(self).hole_shown_up_until == 0,
            final(self).round_score == 0,
            final(self).total_score == old(self).total_score,
            parts_of(r@) == deleted_scores(holes_after(old(self).hole_shown_up_until))
                + seq![total_score_update(old(self).total_score)] + round_score_update(old(self).round_ind, 0),
    {
        let mut out = self.delete_all_scores_after_current(false);
        self.hole_shown_up_until = 0;
        self.round_score = 0;
        self.total_score = self.score_before_round();
        out.push(self.overarching_score_representation().set_total_score());
        let mut round = self.overarching_score_representation().set_round_score();
        out.append(&mut round);
        proof {
            assert(parts_of(out@) =~= deleted_scores(holes_after(old(self).hole_shown_up_until))
                + seq![total_score_update(old(self).total_score)] + round_score_update(old(self).round_ind, 0));
        }
        out
    }

    /// Computes the round score from the results (those before index
    /// `up_until`, where given) and adds it to the total.
    pub fn fix_round_score(&mut self, up_until: Option<u8>)
        requires
            ({
                let n = counted_holes(old(self).rs().len() as int, up_until);
                &&& forall|i: int| 0 <= i < n ==> #[trigger] old(self).rs()[i].fits()
                &&& forall|k: int| 0 <= k <= n ==> isize::MIN <= #[trigger] relative_sum(old(self).rs(), k) <= isize::MAX
                &&& isize::MIN <= old(self).total_score + relative_sum(old(self).rs(), n) <= isize::MAX
            }),
        ensures
            same_player(*final(self), *old(self)),
            final(self).rs() == old(self).rs(),
            final(self).hole_shown_up_until == old(self).hole_shown_up_until,
            final(self).throws == old(self).throws,
            final(self).first_scored == old(self).first_scored,
            final(self).results == old(self).results,
            final(self).round_score == relative_sum(old(self).rs(), counted_holes(old(self).rs().len() as int, up_until)),
            final(self).total_score == old(self).total_score + final(self).round_score,
    {
        let len = self.results.results.len();
        let stop: usize = match up_until {
            Some(u) => if (u as usize) < len { u as usize } else { len },
            None => len,
        };
        let mut sum: isize = 0;
        let mut i: usize = 0;
        while i < stop
            invariant
                i <= stop,
                stop == counted_holes(self.rs().len() as int, up_until),
                stop <= self.rs().len(),
                self.rs() == old(self).rs(),
                sum == relative_sum(self.rs(), i as int),
                forall|j: int| 0 <= j < stop ==> #[trigger] self.rs()[j].fits(),
                forall|k: int| 0 <= k <= stop ==> isize::MIN <= #[trigger] relative_sum(self.rs(), k) <= isize::MAX,
            decreases stop - i,
        {
            assert(isize::MIN <= relative_sum(self.rs(), i + 1) <= isize::MAX);
            let s = self.results.results[i].actual_score();
            sum = sum + s as isize;
            i = i + 1;
        }
        self.round_score = sum;
        self.total_score = self.total_score + sum;
    }

    /// Shows the scorecard calls on the current-player title, and the last six
    /// holes played in its six columns.
    pub fn set_all_current_player_values(&self, interfaces: &[VMixInterfacer<VMixPlayerInfo>]) -> (r: Vec<VMixInterfacer<CurrentPlayer>>)
        requires
            self.results.keys_fit(),
            forall|i: int| 0 <= i < self.results.completion_order().len() ==> #[trigger] self.results.completion_order()[i].fits(),
        ensures
            parts_of(r@) == current_calls(parts_of(interfaces@)) + latest_calls(latest_six(self.results)),
    {
        let mut out: Vec<VMixInterfacer<CurrentPlayer>> = Vec::new();
        let mut i: usize = 0;
        while i < interfaces.len()
            invariant
                i <= interfaces@.len(),
                parts_of(out@) == current_calls(parts_of(interfaces@.take(i as int))),
            decreases interfaces@.len() - i,
        {
            let c = interfaces[i].duplicate().into_current_player();
            let ghost before = out@;
            proof {
                assert(parts_of(interfaces@.take(i + 1)).drop_last() =~= parts_of(interfaces@.take(i as int)));
                assert(parts_of(interfaces@.take(i + 1)).last() == interfaces@[i as int].parts());
            }
            match c {
                Some(c) => {
                    out.push(c);
                },
                None => {},
            }
            proof {
                assert(parts_of(out@) =~= current_calls(parts_of(interfaces@.take(i + 1))));
            }
            i = i + 1;
        }
        proof {
            assert(interfaces@.take(interfaces@.len() as int) =~= interfaces@);
        }
        let ghost head = parts_of(out@);
        let latest = self.results.the_latest_6_holes(6);
        proof {
            assert(latest@ =~= latest_six(self.results));
        }
        let mut j: usize = 0;
        while j < 6
            invariant
                j <= 6,
                latest@ == latest_six(self.results),
                latest@.len() == 6,
                forall|i: int| 0 <= i < self.results.completion_order().len() ==> #[trigger] self.results.completion_order()[i].fits(),
                parts_of(out@) == head + latest_calls(latest@.take(j as int)),
            decreases 6 - j,
        {
            let ghost before = out@;
            proof {
                assert(latest@.take(j + 1).drop_last() =~= latest@.take(j as int));
                assert(latest@.take(j + 1).last() == latest@[j as int]);
            }
            match latest[j] {
                Some(res) => {
                    proof {
                        let order = self.results.completion_order();
                        let k = if 6 < order.len() { 6 } else { order.len() as int };
                        assert(res == order[order.len() - k + j]);
                    }
                    let mut calls = res.to_current_player(j + 1, self.vmix_index());
                    let ghost added = parts_of(calls@);
                    out.append(&mut calls);
                    proof {
                        assert(parts_of(out@) =~= parts_of(before) + added);
                        assert(added =~= seq![
                            (VMixFunction::SetText, Some(CurrentPlayer(VMixPlayerInfo::Score { player: 0, hole: (j + 1) as usize })), Some(score_text(res.relative()))),
                            (VMixFunction::SetColor, Some(CurrentPlayer(VMixPlayerInfo::ScoreColor { player: 0, hole: (j + 1) as usize })), Some("#"@ + res.readable().colour())),
                        ]);
                    }
                },
                None => {
                    let mut calls = HoleResult::hide_current_player_score(j + 1, self.vmix_index());
                    let ghost added = parts_of(calls@);
                    out.append(&mut calls);
                    proof {
                        assert(parts_of(out@) =~= parts_of(before) + added);
                        assert(added =~= seq![
                            (VMixFunction::SetText, Some(CurrentPlayer(VMixPlayerInfo::Score { player: 0, hole: (j + 1) as usize })), Some(Seq::<char>::empty())),
                            (VMixFunction::SetColor, Some(CurrentPlayer(VMixPlayerInfo::ScoreColor { player: 0, hole: (j + 1) as usize })), Some("#"@ + DEFAULT_FOREGROUND_COL_ALPHA@)),
                        ]);
                    }
                },
            }
            proof {
                let t = latest@.take(j + 1);
                assert(t.len() == j + 1);
                assert(latest_calls(t) == latest_calls(t.drop_last()) + match t.last() {
                    Some(h) => seq![
                        (VMixFunction::SetText, Some(CurrentPlayer(VMixPlayerInfo::Score { player: 0, hole: (j + 1) as usize })), Some(score_text(h.relative()))),
                        (VMixFunction::SetColor, Some(CurrentPlayer(VMixPlayerInfo::ScoreColor { player: 0, hole: (j + 1) as usize })), Some("#"@ + h.readable().colour())),
                    ],
                    None => seq![
                        (VMixFunction::SetText, Some(CurrentPlayer(VMixPlayerInfo::Score { player: 0, hole: (j + 1) as usize })), Some(Seq::<char>::empty())),
                        (VMixFunction::SetColor, Some(CurrentPlayer(VMixPlayerInfo::ScoreColor { player: 0, hole: (j + 1) as usize })), Some("#"@ + DEFAULT_FOREGROUND_COL_ALPHA@)),
                    ],
                });
                assert(parts_of(out@) =~= head + latest_calls(latest@.take(j + 1)));
            }
            j = j + 1;
        }
        proof {
            assert(latest@.take(6) =~= latest@);
        }
        out
    }

    fn set_lb_name(&self) -> (r: VMixInterfacer<LeaderBoardProperty>)
        ensures
            r.parts() == (VMixFunction::SetText, Some(LeaderBoardProperty::Name(self.position)), Some(self.name@)),
    {
        VMixInterfacer::set_text(self.name.clone(), LeaderBoardProperty::Name(self.position))
    }

    fn set_lb_hr(&self) -> (r: VMixInterfacer<LeaderBoardProperty>)
        ensures
            r.parts() == (VMixFunction::SetImage, Some(LeaderBoardProperty::HotRound(self.position)), Some(
                if self.hot_round && self.round_ind != 0 && self.hole_shown_up_until != 0 && self.hole_shown_up_until < 19 {
                    "X:\\FLIPUP\\grafik\\fire.png"@
                } else {
                    "X:\\FLIPUP\\grafik\\alpha.png"@
                },
            )),
    {
        let value = if self.hot_round && self.round_ind != 0 && self.hole_shown_up_until != 0 && self.hole_shown_up_until < 19 {
            "X:\\FLIPUP\\grafik\\fire.png"
        } else {
            "X:\\FLIPUP\\grafik\\alpha.png"
        };
        VMixInterfacer::set_image(String::from_str(value), LeaderBoardProperty::HotRound(self.position))
    }

    fn hide_rs(&self) -> (r: VMixInterfacer<LeaderBoardProperty>)
        ensures
            r.parts() == (VMixFunction::SetText, Some(LeaderBoardProperty::RoundScore(self.position)), Some(Seq::<char>::empty())),
    {
        VMixInterfacer::set_text(String::new(), LeaderBoardProperty::RoundScore(self.position))
    }

    fn set_ts(&self) -> (r: Vec<VMixInterfacer<LeaderBoardProperty>>)
        ensures
            parts_of(r@) == seq![
                (VMixFunction::SetTextVisibleOn, Some(LeaderBoardProperty::TotalScore { pos: self.position }), None),
                (VMixFunction::SetTextVisibleOn, Some(LeaderBoardProperty::TotalScoreTitle), None),
                (VMixFunction::SetText, Some(LeaderBoardProperty::TotalScore { pos: self.position }), Some(score_text(self.total_score as int))),
            ],
    {
        let mut v = Vec::new();
        v.push(VMixInterfacer::set_text_visible_on(LeaderBoardProperty::TotalScore { pos: self.position }));
        v.push(VMixInterfacer::set_text_visible_on(LeaderBoardProperty::TotalScoreTitle));
        v.push(VMixInterfacer::set_text(fix_score(self.total_score), LeaderBoardProperty::TotalScore { pos: self.position }));
        proof {
            assert(parts_of(v@) =~= seq![
                (VMixFunction::SetTextVisibleOn, Some(LeaderBoardProperty::TotalScore { pos: self.position }), None),
                (VMixFunction::SetTextVisibleOn, Some(LeaderBoardProperty::TotalScoreTitle), None),
                (VMixFunction::SetText, Some(LeaderBoardProperty::TotalScore { pos: self.position }), Some(score_text(self.total_score as int))),
            ]);
        }
        v
    }

    fn set_thru(&self) -> (r: VMixInterfacer<LeaderBoardProperty>)
        ensures
            r.parts() == (VMixFunction::SetText, Some(LeaderBoardProperty::Thru(self.position)), Some(
                if self.lb_pos == 0 { Seq::<char>::empty() } else { nat_to_dec(self.hole_shown_up_until as nat) },
            )),
    {
        let text = if self.lb_pos == 0 {
            String::new()
        } else {
            usize_to_string(self.hole_shown_up_until)
        };
        VMixInterfacer::set_text(text, LeaderBoardProperty::Thru(self.position))
    }

    /// Empties the row `position` of the big leaderboard, but for the name,
    /// the move and the holes played.
    pub fn set_lb(&mut self) -> (r: Vec<VMixInterfacer<LeaderBoardProperty>>)
        ensures
            final(self).lb_shown == (old(self).lb_shown && !old(self).dnf),
            *final(self) == (Player { lb_shown: old(self).lb_shown && !old(self).dnf, ..*old(self) }),
            parts_of(r@) == seq![
                (VMixFunction::SetText, Some(LeaderBoardProperty::Name(old(self).position)), Some(old(self).name@)),
                (VMixFunction::SetImage, Some(LeaderBoardProperty::HotRound(old(self).position)), Some(Image::Nothing.location())),
                (VMixFunction::SetImage, Some(LeaderBoardProperty::Arrow { pos: old(self).position }), Some(Image::Nothing.location())),
                (VMixFunction::SetText, Some(LeaderBoardProperty::RoundScore(old(self).position)), Some(Seq::<char>::empty())),
                (VMixFunction::SetText, Some(LeaderBoardProperty::Position { pos: old(self).position }), Some(Seq::<char>::empty())),
                (VMixFunction::SetText, Some(LeaderBoardProperty::TotalScore { pos: old(self).position }), Some(Seq::<char>::empty())),
                (VMixFunction::SetText, Some(LeaderBoardProperty::Move { pos: old(self).position }), Some(old(self).rank.move_text())),
                (VMixFunction::SetImage, Some(LeaderBoardProperty::Arrow { pos: old(self).position }), Some(old(self).rank.arrow_image())),
                (VMixFunction::SetText, Some(LeaderBoardProperty::Thru(old(self).position)), Some(
                    if old(self).lb_pos == 0 { Seq::<char>::empty() } else { nat_to_dec(old(self).hole_shown_up_until as nat) },
                )),
            ],
    {
        self.check_if_allowed_to_visible();
        let mut v = Vec::new();
        v.push(self.set_lb_name());
        v.push(VMixInterfacer::set_image(Image::Nothing.to_location(), LeaderBoardProperty::HotRound(self.position)));
        v.push(VMixInterfacer::set_image(Image::Nothing.to_location(), LeaderBoardProperty::Arrow { pos: self.position }));
        v.push(self.hide_rs());
        v.push(VMixInterfacer::set_text(String::new(), LeaderBoardProperty::Position { pos: self.position }));
        v.push(VMixInterfacer::set_text(String::new(), LeaderBoardProperty::TotalScore { pos: self.position }));
        let moves = self.rank.get_instructions(self.position);
        v.push(self.rank.make_move(self.position));
        v.push(self.rank.make_arrow(self.position));
        v.push(self.set_thru());
        proof {
            assert(parts_of(v@) =~= seq![
                (VMixFunction::SetText, Some(LeaderBoardProperty::Name(old(self).position)), Some(old(self).name@)),
                (VMixFunction::SetImage, Some(LeaderBoardProperty::HotRound(old(self).position)), Some(Image::Nothing.location())),
                (VMixFunction::SetImage, Some(LeaderBoardProperty::Arrow { pos: old(self).position }), Some(Image::Nothing.location())),
                (VMixFunction::SetText, Some(LeaderBoardProperty::RoundScore(old(self).position)), Some(Seq::<char>::empty())),
                (VMixFunction::SetText, Some(LeaderBoardProperty::Position { pos: old(self).position }), Some(Seq::<char>::empty())),
                (VMixFunction::SetText, Some(LeaderBoardProperty::TotalScore { pos: old(self).position }), Some(Seq::<char>::empty())),
                (VMixFunction::SetText, Some(LeaderBoardProperty::Move { pos: old(self).position }), Some(old(self).rank.move_text())),
                (VMixFunction::SetImage, Some(LeaderBoardProperty::Arrow { pos: old(self).position }), Some(old(self).rank.arrow_image())),
                (VMixFunction::SetText, Some(LeaderBoardProperty::Thru(old(self).position)), Some(
                    if old(self).lb_pos == 0 { Seq::<char>::empty() } else { nat_to_dec(old(self).hole_shown_up_until as nat) },
                )),
            ]);
        }
        v
    }
}

/// Whether the scores of all the results of a round can be summed.
pub open spec fn round_fits(rs: Seq<HoleResult>) -> bool {
    &&& forall|i: int| 0 <= i < rs.len() ==> #[trigger] rs[i].fits()
    &&& forall|k: int| 0 <= k <= rs.len() ==> isize::MIN <= #[trigger] relative_sum(rs, k) <= isize::MAX
}

impl Player {
    /// The sum of the scores of all the results of the round.
    pub fn round_sum(&self) -> (r: isize)
        requires
            round_fits(self.rs()),
        ensures
            r == relative_sum(self.rs(), self.rs().len() as int),
    {
        let mut sum: isize = 0;
        let mut i: usize = 0;
        while i < self.results.results.len()
            invariant
                i <= self.rs().len(),
                sum == relative_sum(self.rs(), i as int),
                round_fits(self.rs()),
            decreases self.rs().len() - i,
        {
            assert(isize::MIN <= relative_sum(self.rs(), i + 1) <= isize::MAX);
            let s = self.results.results[i].actual_score();
            sum = sum + s as isize;
            i = i + 1;
        }
        sum
    }
}

/// The results that the scoring service verified.
pub open spec fn verified_results(rs: Seq<HoleResult>) -> Seq<HoleResult> {
    rs.filter(|r: HoleResult| r.tjing_result matches Some(t) && t.is_verified)
}

/// How many verified results hit the circle.
pub open spec fn circle_hits(rs: Seq<HoleResult>) -> nat {
    verified_results(rs).filter(|r: HoleResult| r.tjing_result->0.is_circle_hit).len()
}

/// How many verified results were putted inside the circle.
pub open spec fn inside_putts(rs: Seq<HoleResult>) -> nat {
    verified_results(rs).filter(|r: HoleResult| r.tjing_result->0.is_inside_putt).len()
}

impl Player {
    /// The number of verified results, of circle hits and of putts inside the
    /// circle among them.
    pub fn stats_counts(&self) -> (r: (usize, usize, usize))
        ensures
            r.0 == verified_results(self.rs()).len(),
            r.1 == circle_hits(self.rs()),
            r.2 == inside_putts(self.rs()),
    {
        let ghost pred = |r: HoleResult| r.tjing_result matches Some(t) && t.is_verified;
        let ghost circle = |r: HoleResult| r.tjing_result->0.is_circle_hit;
        let ghost inside = |r: HoleResult| r.tjing_result->0.is_inside_putt;
        let mut verified: Vec<HoleResult> = Vec::new();
        let mut i: usize = 0;
        while i < self.results.results.len()
            invariant
                i <= self.rs().len(),
                pred == (|r: HoleResult| r.tjing_result matches Some(t) && t.is_verified),
                verified@ =~= self.rs().take(i as int).filter(pred),
            decreases self.rs().len() - i,
        {
            proof {
                assert(self.rs().take(i + 1) =~= self.rs().take(i as int).push(self.rs()[i as int]));
                self.rs().take(i as int).lemma_filter_push(self.rs()[i as int], pred);
            }
            let r = self.results.results[i];
            let is_verified = match r.tjing_result {
                Some(t) => t.is_verified,
                None => false,
            };
            if is_verified {
                verified.push(r);
            }
            i = i + 1;
        }
        proof {
            assert(self.rs().take(self.rs().len() as int) =~= self.rs());
        }
        let mut hits: usize = 0;
        let mut putts: usize = 0;
        let mut j: usize = 0;
        while j < verified.len()
            invariant
                j <= verified@.len(),
                circle == (|r: HoleResult| r.tjing_result->0.is_circle_hit),
                inside == (|r: HoleResult| r.tjing_result->0.is_inside_putt),
                forall|k: int| 0 <= k < verified@.len() ==> #[trigger] verified@[k].tjing_result is Some,
                hits == verified@.take(j as int).filter(circle).len(),
                putts == verified@.take(j as int).filter(inside).len(),
                hits <= j,
                putts <= j,
            decreases verified@.len() - j,
        {
            proof {
                assert(verified@.take(j + 1) =~= verified@.take(j as int).push(verified@[j as int]));
                verified@.take(j as int).lemma_filter_push(verified@[j as int], circle);
                verified@.take(j as int).lemma_filter_push(verified@[j as int], inside);
            }
            let t = verified[j].tjing_result.unwrap();
            if t.is_circle_hit {
                hits = hits + 1;
            }
            if t.is_inside_putt {
                putts = putts + 1;
            }
            j = j + 1;
        }
        proof {
            assert(verified@.take(verified@.len() as int) =~= verified@);
        }
        (verified.len(), hits, putts)
    }

    /// The share of circle hits and of putts inside the circle, in percent.
    pub fn set_stats(&self, circle_hit: usize, inside_putt: usize) -> (r: Vec<VMixInterfacer<VMixPlayerInfo>>)
        ensures
            parts_of(r@) == seq![
                (VMixFunction::SetText, Some(VMixPlayerInfo::CircleHit(0)), Some(nat_to_dec(circle_hit as nat) + "%"@)),
                (VMixFunction::SetText, Some(VMixPlayerInfo::InsidePutt(0)), Some(nat_to_dec(inside_putt as nat) + "%"@)),
            ],
    {
        let mut v = Vec::new();
        v.push(VMixInterfacer::set_text(usize_to_string(circle_hit).concat("%"), VMixPlayerInfo::CircleHit(self.vmix_index())));
        v.push(VMixInterfacer::set_text(usize_to_string(inside_putt).concat("%"), VMixPlayerInfo::InsidePutt(self.vmix_index())));
        proof {
            assert(parts_of(v@) =~= seq![
                (VMixFunction::SetText, Some(VMixPlayerInfo::CircleHit(0)), Some(nat_to_dec(circle_hit as nat) + "%"@)),
                (VMixFunction::SetText, Some(VMixPlayerInfo::InsidePutt(0)), Some(nat_to_dec(inside_putt as nat) + "%"@)),
            ]);
        }
        v
    }
}

/// The score calls of all results, in order.
pub open spec fn all_score_updates(rs: Seq<HoleResult>) -> Seq<(VMixFunction, Option<VMixPlayerInfo>, Option<Seq<char>>)>
    decreases rs.len(),
{
    if rs.len() == 0 {
        seq![]
    } else {
        all_score_updates(rs.drop_last()) + score_update(rs.last())
    }
}

/// The score calls of holes one to `n`, for those with a result.
pub open spec fn shown_score_updates(rs: Seq<HoleResult>, n: nat) -> Seq<(VMixFunction, Option<VMixPlayerInfo>, Option<Seq<char>>)>
    decreases n,
{
    if n == 0 {
        seq![]
    } else {
        shown_score_updates(rs, (n - 1) as nat) + match first_numbered(rs, n as int, 0) {
            Some(i) => score_update(rs[i]),
            None => seq![],
        }
    }
}

/// The key a played hole of these results is ordered by (see
/// `PlayerRound::completion_key`).
pub open spec fn key_of(rs: Seq<HoleResult>, start: u8, r: HoleResult) -> u8 {
    if done_results(rs).len() as u8 == 18 {
        r.hole
    } else {
        (((r.hole - 1 + start) as u8) % 19) as u8
    }
}

/// The played holes of these results in the order they were played (see
/// `PlayerRound::completion_order`).
pub open spec fn order_of(rs: Seq<HoleResult>, start: u8) -> Seq<HoleResult> {
    stable_sorted(done_results(rs).map_values(|r: HoleResult| KeyedResult { key: key_of(rs, start, r), result: r })).map_values(
        |k: KeyedResult| k.result,
    )
}

/// Whether the latest holes of a round with these results, started at
/// `start`, can be shown: their keys fit in bytes and their scores in `i8`.
pub open spec fn latest_showable(rs: Seq<HoleResult>, start: u8) -> bool {
    &&& done_results(rs).len() as u8 != 18 ==> forall|i: int| 0 <= i < done_results(rs).len() ==>
        1 <= #[trigger] done_results(rs)[i].hole && done_results(rs)[i].hole - 1 + start <= u8::MAX
    &&& forall|i: int| 0 <= i < order_of(rs, start).len() ==> #[trigger] order_of(rs, start)[i].fits()
}

/// A round's latest holes can be shown where its results can (see `latest_showable`).
pub proof fn lemma_latest_showable(p: PlayerRound)
    requires
        latest_showable(p.results@, p.start_at_hole),
    ensures
        p.keys_fit(),
        forall|i: int| 0 <= i < p.completion_order().len() ==> #[trigger] p.completion_order()[i].fits(),
{
    let d = done_results(p.results@);
    assert(d.map_values(|r: HoleResult| KeyedResult { key: p.completion_key(r), result: r })
        =~= d.map_values(|r: HoleResult| KeyedResult { key: key_of(p.results@, p.start_at_hole, r), result: r }));
    assert(p.completion_order() == order_of(p.results@, p.start_at_hole));
}

/// The results of a player after the hole after the last one shown is scored.
pub open spec fn scored_rs(b: Player) -> Seq<HoleResult> {
    shown_results_in(
        scored_results(b.rs(), b.hole_shown_up_until, b.throws, b.holes.holes@),
        b.hole_shown_up_until,
        b.throws,
        b.holes.holes@,
    )
}

/// The score of the hole scored next.
pub open spec fn scored_points(b: Player) -> int {
    scored_result(b.rs(), b.hole_shown_up_until, b.throws, b.holes.holes@).relative()
}

/// Whether the hole after the last one shown can be scored without overflow.
pub open spec fn can_increase(b: Player) -> bool {
    &&& can_score(b.rs(), b.hole_shown_up_until, b.throws, b.holes.holes@)
    &&& isize::MIN <= b.round_score + scored_points(b) <= isize::MAX
    &&& isize::MIN <= b.total_score + scored_points(b) <= isize::MAX
    &&& b.hole_shown_up_until + 1 < usize::MAX
}

/// Whether `a` is `b` after the hole after the last one shown was scored (see
/// `Player::increase_score`).
pub open spec fn increased(a: Player, b: Player) -> bool {
    &&& same_player(a, b)
    &&& a.rs() == scored_rs(b)
    &&& a.round_score == b.round_score + scored_points(b)
    &&& a.total_score == b.total_score + scored_points(b)
    &&& a.hole_shown_up_until == b.hole_shown_up_until + 1
    &&& a.throws == 0
    &&& a.first_scored
}

/// The scorecard calls of scoring a hole: `b` before, `a` after.
pub open spec fn increase_calls(a: Player, b: Player) -> Seq<(VMixFunction, Option<VMixPlayerInfo>, Option<Seq<char>>)> {
    let rs1 = scored_results(b.rs(), b.hole_shown_up_until, b.throws, b.holes.holes@);
    score_update(shown_result_in(rs1, b.hole_shown_up_until, b.throws, b.holes.holes@))
        + seq![total_score_update(a.total_score)]
        + round_score_update(b.round_ind, a.round_score)
        + seq![(VMixFunction::SetText, Some(VMixPlayerInfo::Throw(0)), Some(nat_to_dec(0)))]
}

/// Whether the last hole shown can be taken back without overflow.
pub open spec fn can_revert(b: Player) -> bool {
    b.hole_shown_up_until > 0 ==> {
        let k = b.hole_shown_up_until - 1;
        let d = crate::round::hole_score_at(b.rs(), k);
        &&& k < b.rs().len() ==> b.rs()[k].fits()
        &&& isize::MIN <= b.round_score - d <= isize::MAX
        &&& isize::MIN <= b.total_score - d <= isize::MAX
    }
}

/// Whether `a` is `b` after the last hole shown was taken back (see
/// `Player::revert_hole_score`).
pub open spec fn reverted(a: Player, b: Player) -> bool {
    &&& same_player(a, b)
    &&& a.throws == b.throws
    &&& a.first_scored == b.first_scored
    &&& b.hole_shown_up_until == 0 ==> {
        &&& a.rs() == b.rs()
        &&& a.hole_shown_up_until == 0
        &&& a.round_score == b.round_score
        &&& a.total_score == b.total_score
    }
    &&& b.hole_shown_up_until > 0 ==> {
        let d = crate::round::hole_score_at(b.rs(), b.hole_shown_up_until - 1);
        &&& a.hole_shown_up_until == b.hole_shown_up_until - 1
        &&& a.rs() == reverted_results(b.rs())
        &&& a.round_score == b.round_score - d
        &&& a.total_score == b.total_score - d
    }
}

/// The scorecard calls of taking back a hole: `b` before, `a` after.
pub open spec fn revert_calls(a: Player, b: Player) -> Seq<(VMixFunction, Option<VMixPlayerInfo>, Option<Seq<char>>)> {
    if b.hole_shown_up_until == 0 {
        seq![]
    } else {
        deleted_score(b.hole_shown_up_until) + seq![total_score_update(a.total_score)]
            + round_score_update(b.round_ind, a.round_score)
    }
}

/// Whether `a` is `b` after its scorecard was emptied (see `Player::reset_scores`).
pub open spec fn reset(a: Player, b: Player) -> bool {
    &&& same_player(a, b)
    &&& a.rs() == b.rs()
    &&& a.throws == b.throws
    &&& a.first_scored == b.first_scored
    &&& a.hole_shown_up_until == 0
    &&& a.round_score == 0
    &&& a.total_score == b.total_score
}

/// The scorecard calls of emptying a scorecard.
pub open spec fn reset_calls(b: Player) -> Seq<(VMixFunction, Option<VMixPlayerInfo>, Option<Seq<char>>)> {
    deleted_scores(holes_after(b.hole_shown_up_until)) + seq![total_score_update(b.total_score)]
        + round_score_update(b.round_ind, 0)
}

/// The calls for the current player view that follow scorecard calls: those
/// calls but the scores, then the latest holes played.
pub open spec fn current_view(p: Player, calls: Seq<(VMixFunction, Option<VMixPlayerInfo>, Option<Seq<char>>)>) -> Seq<(VMixFunction, Option<CurrentPlayer>, Option<Seq<char>>)> {
    current_calls(calls) + latest_calls(latest_six(p.results))
}

} // verus!
