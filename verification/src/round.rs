//! The holes a player has played in a round.
use vstd::prelude::*;

use crate::division::Division;
use crate::error::Error;
use crate::hole::{difficulty_ranks, find_hole_spec, DroneHoleInfo, Hole, HoleAverage, HoleDifficulty, Holes, VMixHoleInfo};
use crate::leaderboard_prop::LeaderboardTop6;
use crate::score::{ReadableScore, Score};
use crate::sort::{stable_sort, stable_sorted, SortKey};
use crate::text::{fix_score, score_text, str_eq, usize_to_string, nat_to_dec};
use crate::tjing;
use crate::vmix::{CurrentPlayer, VMixFunction, VMixInterfacer, VMixPlayerInfo};
use crate::player::parts_of;

verus! {

/// The colour of a score field that shows nothing.
pub const DEFAULT_FOREGROUND_COL_ALPHA: &'static str = "3F334D00";
pub const DEFAULT_FOREGROUND_COL: &'static str = "3F334D";
pub const DEFAULT_BACKGROUND_COL: &'static str = "574B60";

/// One hole of a player's round: entered on site, reported by the scoring
/// service, or both.
#[derive(Clone, Copy, Debug)]
pub struct HoleResult {
    pub hole: u8,
    pub throws: u8,
    pub hole_representation: Hole,
    pub tjing_result: Option<tjing::HoleResult>,
    pub finished: bool,
}

impl HoleResult {
    /// The throws that count: the reported ones where there is a report.
    pub open spec fn counted_throws(self) -> u8 {
        match self.tjing_result {
            Some(t) => t.score as u8,
            None => self.throws,
        }
    }

    /// The result relative to par, as signed bytes.
    pub open spec fn relative(self) -> int {
        (self.counted_throws() as i8) - (self.hole_representation.par as i8)
    }

    /// Whether the result relative to par fits in a signed byte.
    pub open spec fn fits(self) -> bool {
        i8::MIN <= self.relative() <= i8::MAX
    }

    /// Whether the hole counts as played.
    pub open spec fn is_done(self) -> bool {
        self.finished || (self.tjing_result matches Some(t) && t.is_verified) || self.throws != 0
    }

    /// The name of the result.
    pub open spec fn readable(self) -> ReadableScore {
        ReadableScore::spec_new(self.counted_throws() as i8, self.hole_representation.par as i8)
    }

    /// A hole entered on site: par throws until the throws are known.
    pub fn new(hole: u8, holes: &Holes) -> (r: Result<Self, Error>)
        ensures
            match find_hole_spec(holes.holes@, hole) {
                Some(h) => r matches Ok(res) && res == (HoleResult {
                    hole,
                    throws: h.par,
                    hole_representation: h,
                    tjing_result: None,
                    finished: false,
                }),
                None => r matches Err(Error::UnableToParse),
            },
    {
        match holes.find_hole(hole) {
            Some(h) => Ok(HoleResult { hole, throws: h.par, hole_representation: h, tjing_result: None, finished: false }),
            None => Err(Error::UnableToParse),
        }
    }

    /// A hole as the scoring service reported it; `None` where the hole is not
    /// on the layout.
    pub fn from_tjing(hole: u8, holes: &Holes, tjing: tjing::HoleResult) -> (r: Option<Self>)
        requires
            find_hole_spec(holes.holes@, hole) matches Some(h) ==> i8::MIN <= (tjing.score as i8) + (h.par as i8) <= i8::MAX,
        ensures
            match find_hole_spec(holes.holes@, hole) {
                Some(h) => r == Some(HoleResult {
                    hole,
                    throws: ((tjing.score as i8) + (h.par as i8)) as u8,
                    hole_representation: h,
                    tjing_result: Some(tjing),
                    finished: false,
                }),
                None => r is None,
            },
    {
        match holes.find_hole(hole) {
            Some(h) => {
                let score = tjing.score as i8;
                let par = h.par as i8;
                let throws = (score + par) as u8;
                Some(HoleResult { hole, throws, hole_representation: h, tjing_result: Some(tjing), finished: false })
            },
            None => None,
        }
    }

    pub fn tjing_result(self) -> (r: Option<tjing::HoleResult>)
        ensures
            r == self.tjing_result,
    {
        self.tjing_result
    }

    fn throws(&self) -> (r: u8)
        ensures
            r == self.counted_throws(),
    {
        match self.tjing_result {
            Some(t) => t.score as u8,
            None => self.throws,
        }
    }

    /// The result relative to par.
    pub fn actual_score(&self) -> (r: i8)
        requires
            self.fits(),
        ensures
            r == self.relative(),
    {
        let throws = self.throws() as i8;
        let par = self.hole_representation.par as i8;
        throws - par
    }

    pub fn to_score(&self) -> (r: Score)
        requires
            self.fits(),
        ensures
            r.throws_of() == self.counted_throws() as i8,
            r.par_of() == self.hole_representation.par as i8,
            r.hole_of() == self.hole,
            r.relative() == self.relative(),
            r.readable() == self.readable(),
    {
        Score::new(self.throws() as i8, self.hole_representation.par as i8, self.hole)
    }

    /// Colours the score field of the hole.
    pub fn get_score_colour(&self, player: usize) -> (r: VMixInterfacer<VMixPlayerInfo>)
        requires
            self.fits(),
        ensures
            r.function == VMixFunction::SetColor,
            r.value_view() == Some("#"@ + self.readable().colour()),
            r.input == Some(VMixPlayerInfo::ScoreColor { hole: self.hole as usize, player }),
    {
        self.to_score().update_score_colour(player)
    }

    /// Stops the running clip and plays the clip of this result.
    pub fn get_mov(&self, player: usize) -> (r: [VMixInterfacer<VMixPlayerInfo>; 2])
        requires
            self.fits(),
        ensures
            r[0].function == VMixFunction::OverlayInput4Off,
            r[0].value is None,
            r[0].input is None,
            r[1].function == VMixFunction::OverlayInput4,
            r[1].input is None,
            r[1].value_view() == Some(self.readable().mov()),
    {
        self.to_score().play_mov_vmix(player, false)
    }

    /// Shows the result in the column `hole` of row `pos` of the top-six title.
    pub fn to_leaderboard_top_6(&self, pos: usize, hole: usize) -> (r: Vec<VMixInterfacer<LeaderboardTop6>>)
        requires
            self.fits(),
        ensures
            r@.len() == 2,
            r@[0].function == VMixFunction::SetText,
            r@[0].value_view() == Some(score_text(self.relative())),
            r@[0].input == Some(LeaderboardTop6::LastScore { pos, hole }),
            r@[1].function == VMixFunction::SetColor,
            r@[1].value_view() == Some("#"@ + self.readable().colour()),
            r@[1].input == Some(LeaderboardTop6::LastScoreColour { pos, hole }),
    {
        let text = fix_score(self.actual_score() as isize);
        let colour = self.to_score().get_score_colour();
        let mut v = Vec::new();
        v.push(VMixInterfacer::set_text(text, LeaderboardTop6::LastScore { pos, hole }));
        v.push(VMixInterfacer::set_color(colour, LeaderboardTop6::LastScoreColour { pos, hole }));
        v
    }

    /// Shows the result in the column `hole` of the current-player title.
    pub fn to_current_player(&self, hole: usize, player: usize) -> (r: Vec<VMixInterfacer<CurrentPlayer>>)
        requires
            self.fits(),
        ensures
            r@.len() == 2,
            r@[0].function == VMixFunction::SetText,
            r@[0].value_view() == Some(score_text(self.relative())),
            r@[0].input == Some(CurrentPlayer(VMixPlayerInfo::Score { player, hole })),
            r@[1].function == VMixFunction::SetColor,
            r@[1].value_view() == Some("#"@ + self.readable().colour()),
            r@[1].input == Some(CurrentPlayer(VMixPlayerInfo::ScoreColor { player, hole })),
    {
        let text = fix_score(self.actual_score() as isize);
        let colour = self.to_score().get_score_colour();
        let mut v = Vec::new();
        v.push(VMixInterfacer::set_text(text, CurrentPlayer(VMixPlayerInfo::Score { player, hole })));
        v.push(VMixInterfacer::set_color(colour, CurrentPlayer(VMixPlayerInfo::ScoreColor { player, hole })));
        v
    }

    /// Empties the column `hole` of the current-player title.
    pub fn hide_current_player_score(hole: usize, player: usize) -> (r: Vec<VMixInterfacer<CurrentPlayer>>)
        ensures
            r@.len() == 2,
            r@[0].function == VMixFunction::SetText,
            r@[0].value_view() == Some(Seq::<char>::empty()),
            r@[0].input == Some(CurrentPlayer(VMixPlayerInfo::Score { player, hole })),
            r@[1].function == VMixFunction::SetColor,
            r@[1].value_view() == Some("#"@ + DEFAULT_FOREGROUND_COL_ALPHA@),
            r@[1].input == Some(CurrentPlayer(VMixPlayerInfo::ScoreColor { player, hole })),
    {
        let mut v = Vec::new();
        v.push(VMixInterfacer::set_text(String::new(), CurrentPlayer(VMixPlayerInfo::Score { hole, player })));
        v.push(VMixInterfacer::set_color(DEFAULT_FOREGROUND_COL_ALPHA, CurrentPlayer(VMixPlayerInfo::ScoreColor { hole, player })));
        v
    }

    /// Empties the column `hole` of row `player` of the top-six title.
    pub fn hide_hole_top_6(player: usize, hole: usize) -> (r: Vec<VMixInterfacer<LeaderboardTop6>>)
        ensures
            r@.len() == 2,
            r@[0].function == VMixFunction::SetText,
            r@[0].value_view() == Some(Seq::<char>::empty()),
            r@[0].input == Some(LeaderboardTop6::LastScore { pos: player, hole }),
            r@[1].function == VMixFunction::SetColor,
            r@[1].value_view() == Some("#"@ + DEFAULT_FOREGROUND_COL_ALPHA@),
            r@[1].input == Some(LeaderboardTop6::LastScoreColour { pos: player, hole }),
    {
        let mut v = Vec::new();
        v.push(VMixInterfacer::set_text(String::new(), LeaderboardTop6::LastScore { pos: player, hole }));
        v.push(VMixInterfacer::set_color(DEFAULT_FOREGROUND_COL_ALPHA, LeaderboardTop6::LastScoreColour { hole, pos: player }));
        v
    }
}

impl SortKey for HoleResult {
    open spec fn le_spec(&self, other: &Self) -> bool {
        self.hole <= other.hole
    }

    proof fn lemma_le_total(a: &Self, b: &Self) {
    }

    proof fn lemma_le_transitive(a: &Self, b: &Self, c: &Self) {
    }

    fn le(&self, other: &Self) -> (r: bool) {
        self.hole <= other.hole
    }
}

/// The index of the first result on hole `hole`, from `from` on.
pub open spec fn first_on_hole(rs: Seq<HoleResult>, hole: u8, from: int) -> Option<int>
    decreases rs.len() - from,
{
    if from < 0 || from >= rs.len() {
        None
    } else if rs[from].hole == hole {
        Some(from)
    } else {
        first_on_hole(rs, hole, from + 1)
    }
}

proof fn lemma_first_on_hole(rs: Seq<HoleResult>, hole: u8, from: int)
    requires
        0 <= from,
    ensures
        match first_on_hole(rs, hole, from) {
            Some(k) => from <= k < rs.len() && rs[k].hole == hole
                && forall|j: int| from <= j < k ==> rs[j].hole != hole,
            None => forall|j: int| from <= j < rs.len() ==> rs[j].hole != hole,
        },
    decreases rs.len() - from,
{
    if from < rs.len() && rs[from].hole != hole {
        lemma_first_on_hole(rs, hole, from + 1);
    }
}

/// The index of the first result that the scoring service verified on hole
/// number `hole`, from `from` on.
pub open spec fn first_verified(rs: Seq<HoleResult>, hole: usize, from: int) -> Option<int>
    decreases rs.len() - from,
{
    if from < 0 || from >= rs.len() {
        None
    } else if rs[from].tjing_result matches Some(t) && t.hole_number == hole && t.is_verified {
        Some(from)
    } else {
        first_verified(rs, hole, from + 1)
    }
}

pub proof fn lemma_first_verified(rs: Seq<HoleResult>, hole: usize, from: int)
    requires
        0 <= from,
    ensures
        match first_verified(rs, hole, from) {
            Some(k) => from <= k < rs.len(),
            None => true,
        },
    decreases rs.len() - from,
{
    if from < rs.len() && !(rs[from].tjing_result matches Some(t) && t.hole_number == hole && t.is_verified) {
        lemma_first_verified(rs, hole, from + 1);
    }
}

/// A reported result on a hole of the layout.
pub open spec fn reported(t: tjing::HoleResult, h: Hole) -> HoleResult {
    HoleResult {
        hole: t.hole_number as u8,
        throws: ((t.score as i8) + (h.par as i8)) as u8,
        hole_representation: h,
        tjing_result: Some(t),
        finished: false,
    }
}

/// One report taken into the results: it completes the result on its hole, or
/// is added as a new result.
pub open spec fn tjing_step(rs: Seq<HoleResult>, t: tjing::HoleResult, holes: Seq<Hole>) -> Seq<HoleResult> {
    match first_on_hole(rs, t.hole_number as u8, 0) {
        Some(i) => rs.update(i, HoleResult {
            hole: rs[i].hole,
            throws: rs[i].throws,
            hole_representation: rs[i].hole_representation,
            tjing_result: Some(t),
            finished: true,
        }),
        None => rs.push(reported(t, find_hole_spec(holes, t.hole_number as u8)->0)),
    }
}

/// Whether a report can be taken in: its hole has a result already, or it is
/// on the layout and its throws fit.
pub open spec fn tjing_step_ok(rs: Seq<HoleResult>, t: tjing::HoleResult, holes: Seq<Hole>) -> bool {
    ||| first_on_hole(rs, t.hole_number as u8, 0) is Some
    ||| find_hole_spec(holes, t.hole_number as u8) matches Some(h)
        && i8::MIN <= (t.score as i8) + (h.par as i8) <= i8::MAX
}

/// The results after taking in the reports in order.
pub open spec fn tjing_fold(rs: Seq<HoleResult>, ts: Seq<tjing::HoleResult>, holes: Seq<Hole>) -> Seq<HoleResult>
    decreases ts.len(),
{
    if ts.len() == 0 {
        rs
    } else {
        tjing_step(tjing_fold(rs, ts.drop_last(), holes), ts.last(), holes)
    }
}

/// Whether each report can be taken in, in turn.
pub open spec fn tjing_fold_ok(rs: Seq<HoleResult>, ts: Seq<tjing::HoleResult>, holes: Seq<Hole>) -> bool
    decreases ts.len(),
{
    ts.len() == 0 || (tjing_fold_ok(rs, ts.drop_last(), holes) && tjing_step_ok(
        tjing_fold(rs, ts.drop_last(), holes),
        ts.last(),
        holes,
    ))
}

/// The score on the hole at `index`: relative to par, or the largest number
/// where there is no such hole.
pub open spec fn hole_score_at(rs: Seq<HoleResult>, index: int) -> int {
    if 0 <= index < rs.len() {
        rs[index].relative()
    } else {
        isize::MAX as int
    }
}

/// The sum of the scores on the first `n` holes.
pub open spec fn score_sum(rs: Seq<HoleResult>, n: nat) -> int
    decreases n,
{
    if n == 0 {
        0
    } else {
        score_sum(rs, (n - 1) as nat) + hole_score_at(rs, n - 1)
    }
}

/// The results of one player in one round.
#[derive(Clone, Debug)]
pub struct PlayerRound {
    pub results: Vec<HoleResult>,
    pub start_at_hole: u8,
    pub finished: bool,
    pub round: usize,
}

impl PlayerRound {
    /// The results, ordered by hole (stably).
    pub fn new(results: Vec<HoleResult>, round: usize, start_at_hole: u8) -> (r: Self)
        ensures
            r.results@ == stable_sorted(results@),
            r.round == round,
            r.start_at_hole == start_at_hole,
            !r.finished,
    {
        PlayerRound { results: stable_sort(results), finished: false, round, start_at_hole }
    }

    /// A round with no results.
    pub fn empty() -> (r: Self)
        ensures
            r.results@.len() == 0,
            r.round == 0,
            r.start_at_hole == 0,
            !r.finished,
    {
        PlayerRound { results: Vec::new(), finished: false, round: 0, start_at_hole: 0 }
    }

    /// Adds a hole entered on site with the given throws; a round has at most
    /// eighteen holes.
    pub fn add_new_hole(&mut self, all_holes: &Holes, hole: u8, throws: u8) -> (r: Result<(), Error>)
        ensures
            final(self).start_at_hole == old(self).start_at_hole,
            final(self).finished == old(self).finished,
            final(self).round == old(self).round,
            old(self).results@.len() >= 18 ==> (r matches Err(Error::TooManyHoles)
                && final(self).results@ == old(self).results@),
            old(self).results@.len() < 18 ==> match find_hole_spec(all_holes.holes@, hole) {
                Some(h) => r is Ok && final(self).results@ == old(self).results@.push(HoleResult {
                    hole,
                    throws,
                    hole_representation: h,
                    tjing_result: None,
                    finished: false,
                }),
                None => r matches Err(Error::UnableToParse) && final(self).results@ == old(self).results@,
            },
    {
        if self.results.len() >= 18 {
            return Err(Error::TooManyHoles);
        }
        match HoleResult::new(hole, all_holes) {
            Ok(result) => {
                let mut result = result;
                result.throws = throws;
                self.results.push(result);
                Ok(())
            },
            Err(e) => Err(e),
        }
    }

    /// The result that the scoring service verified on hole number `hole`.
    pub fn current_result_mut(&mut self, hole: usize) -> (r: Option<&mut HoleResult>)
        ensures
            match first_verified(old(self).results@, hole, 0) {
                Some(i) => r matches Some(x) && *x == old(self).results@[i]
                    && final(self).results@ == old(self).results@.update(i, *final(x)),
                None => r is None && final(self).results@ == old(self).results@,
            },
            final(self).start_at_hole == old(self).start_at_hole,
            final(self).finished == old(self).finished,
            final(self).round == old(self).round,
    {
        let mut i: usize = 0;
        while i < self.results.len()
            invariant
                i <= self.results@.len(),
                self.results@ == old(self).results@,
                self.start_at_hole == old(self).start_at_hole,
                self.finished == old(self).finished,
                self.round == old(self).round,
                first_verified(self.results@, hole, 0) == first_verified(self.results@, hole, i as int),
            decreases self.results@.len() - i,
        {
            let found = match self.results[i].tjing_result {
                Some(t) => t.hole_number == hole && t.is_verified,
                None => false,
            };
            if found {
                return Some(&mut self.results[i]);
            }
            i = i + 1;
        }
        None
    }

    /// The reports of the scoring service, hole by hole.
    pub fn tjing_results(self) -> (r: Vec<Option<tjing::HoleResult>>)
        ensures
            r@ == self.results@.map_values(|h: HoleResult| h.tjing_result),
    {
        let mut out: Vec<Option<tjing::HoleResult>> = Vec::new();
        let mut i: usize = 0;
        while i < self.results.len()
            invariant
                i <= self.results@.len(),
                out@ == self.results@.take(i as int).map_values(|h: HoleResult| h.tjing_result),
            decreases self.results@.len() - i,
        {
            out.push(self.results[i].tjing_result);
            i = i + 1;
            proof {
                assert(self.results@.take(i as int).map_values(|h: HoleResult| h.tjing_result)
                    =~= out@);
            }
        }
        proof {
            assert(self.results@.take(self.results@.len() as int) =~= self.results@);
        }
        out
    }

    fn find_on_hole(&self, hole: u8) -> (r: Option<usize>)
        ensures
            match first_on_hole(self.results@, hole, 0) {
                Some(j) => r matches Some(i) && i as int == j,
                None => r is None,
            },
            r matches Some(i) ==> i < self.results@.len() && self.results@[i as int].hole == hole,
    {
        proof {
            lemma_first_on_hole(self.results@, hole, 0);
        }
        let mut i: usize = 0;
        while i < self.results.len()
            invariant
                i <= self.results@.len(),
                first_on_hole(self.results@, hole, 0) == first_on_hole(self.results@, hole, i as int),
            decreases self.results@.len() - i,
        {
            if self.results[i].hole == hole {
                return Some(i);
            }
            i = i + 1;
        }
        None
    }

    /// Takes in the reports of the scoring service, in order: a report
    /// completes the result on its hole, or is added as a new result.
    pub fn update_tjing(&mut self, results: &[tjing::HoleResult], holes: &Holes)
        requires
            tjing_fold_ok(old(self).results@, results@, holes.holes@),
        ensures
            final(self).results@ == tjing_fold(old(self).results@, results@, holes.holes@),
            final(self).start_at_hole == old(self).start_at_hole,
            final(self).finished == old(self).finished,
            final(self).round == old(self).round,
    {
        let ghost start = self.results@;
        let mut k: usize = 0;
        while k < results.len()
            invariant
                k <= results@.len(),
                self.results@ == tjing_fold(start, results@.take(k as int), holes.holes@),
                tjing_fold_ok(start, results@, holes.holes@),
                self.start_at_hole == old(self).start_at_hole,
                self.finished == old(self).finished,
                self.round == old(self).round,
            decreases results@.len() - k,
        {
            proof {
                assert(results@.take(k + 1).drop_last() =~= results@.take(k as int));
                lemma_fold_ok_prefix(start, results@, holes.holes@, (k + 1) as nat);
            }
            let t = results[k];
            let ghost before = self.results@;
            proof {
                let p = results@.take(k + 1);
                assert(p.last() == t);
                assert(tjing_fold(start, p, holes.holes@) == tjing_step(tjing_fold(start, p.drop_last(), holes.holes@), p.last(), holes.holes@));
            }
            let number = #[verifier::truncate] (t.hole_number as u8);
            match self.find_on_hole(number) {
                Some(i) => {
                    let old_result = self.results[i];
                    self.results.set(i, HoleResult {
                        hole: old_result.hole,
                        throws: old_result.throws,
                        hole_representation: old_result.hole_representation,
                        tjing_result: Some(t),
                        finished: true,
                    });
                    assert(self.results@ =~= tjing_step(before, t, holes.holes@));
                },
                None => {
                    let r = HoleResult::from_tjing(number, holes, t);
                    match r {
                        Some(r) => {
                            self.results.push(r);
                            assert(self.results@ =~= tjing_step(before, t, holes.holes@));
                        },
                        None => {},
                    }
                },
            }
            assert(self.results@ =~= tjing_step(before, t, holes.holes@));
            k = k + 1;
        }
        proof {
            assert(results@.take(results@.len() as int) =~= results@);
        }
    }

    /// The result on the hole after `hole` (on the last hole from there on).
    pub fn current_result(&self, hole: u8) -> (r: Option<&HoleResult>)
        requires
            hole < 255,
        ensures
            match first_on_hole(self.results@, if hole + 1 > 18 { 18u8 } else { (hole + 1) as u8 }, 0) {
                Some(i) => r matches Some(x) && *x == self.results@[i],
                None => r is None,
            },
    {
        let target: u8 = if hole + 1 > 18 { 18 } else { hole + 1 };
        proof {
            lemma_first_on_hole(self.results@, target, 0);
        }
        match self.find_on_hole(target) {
            Some(i) => Some(&self.results[i]),
            None => None,
        }
    }

    /// The score on the hole at `hole` (an index): relative to par, or the
    /// largest number where there is none.
    pub fn hole_score(&self, hole: usize) -> (r: isize)
        requires
            hole < self.results@.len() ==> self.results@[hole as int].fits(),
        ensures
            r == hole_score_at(self.results@, hole as int),
    {
        if hole < self.results.len() {
            self.results[hole].actual_score() as isize
        } else {
            isize::MAX
        }
    }

    /// The sum of the scores up to and including the hole at `hole`.
    pub fn score_to_hole(&self, hole: usize) -> (r: isize)
        requires
            forall|i: int| 0 <= i <= hole && i < self.results@.len() ==> #[trigger] self.results@[i].fits(),
            forall|k: nat| k <= hole + 1 ==> isize::MIN <= #[trigger] score_sum(self.results@, k) <= isize::MAX,
        ensures
            r == score_sum(self.results@, (hole + 1) as nat),
    {
        let mut sum: isize = 0;
        let mut i: usize = 0;
        loop
            invariant_except_break
                i <= hole,
                sum == score_sum(self.results@, i as nat),
            invariant
                forall|j: int| 0 <= j <= hole && j < self.results@.len() ==> #[trigger] self.results@[j].fits(),
                forall|k: nat| k <= hole + 1 ==> isize::MIN <= #[trigger] score_sum(self.results@, k) <= isize::MAX,
            ensures
                sum == score_sum(self.results@, (hole + 1) as nat),
            decreases hole - i,
        {
            assert(isize::MIN <= score_sum(self.results@, (i + 1) as nat) <= isize::MAX);
            let s = self.hole_score(i);
            sum = sum + s;
            if i == hole {
                break;
            }
            i = i + 1;
        }
        sum
    }
}

proof fn lemma_fold_ok_prefix(rs: Seq<HoleResult>, ts: Seq<tjing::HoleResult>, holes: Seq<Hole>, n: nat)
    requires
        tjing_fold_ok(rs, ts, holes),
        1 <= n <= ts.len(),
    ensures
        tjing_step_ok(tjing_fold(rs, ts.take(n - 1), holes), ts[n - 1], holes),
    decreases ts.len(),
{
    if n < ts.len() {
        assert(ts.drop_last().take(n - 1) =~= ts.take(n - 1));
        lemma_fold_ok_prefix(rs, ts.drop_last(), holes, n);
    } else {
        assert(ts.take(n - 1) =~= ts.drop_last());
    }
}

/// The results that count as played, in their order.
pub open spec fn done_results(rs: Seq<HoleResult>) -> Seq<HoleResult> {
    rs.filter(|r: HoleResult| r.is_done())
}

/// A result with the key it is ordered by.
#[derive(Clone, Copy, Debug)]
pub struct KeyedResult {
    pub key: u8,
    pub result: HoleResult,
}

impl SortKey for KeyedResult {
    open spec fn le_spec(&self, other: &Self) -> bool {
        self.key <= other.key
    }

    proof fn lemma_le_total(a: &Self, b: &Self) {
    }

    proof fn lemma_le_transitive(a: &Self, b: &Self, c: &Self) {
    }

    fn le(&self, other: &Self) -> (r: bool) {
        self.key <= other.key
    }
}

/// The elevation of each hole, in metres, on the layout of the open pro
/// division and on the other one.
pub open spec fn elevation_table(pro: bool) -> Seq<int> {
    if pro {
        seq![-3int, 10, -8, -4, 1, -10, 8, 11, -4, 3, 1, 1, -1, -6, 8, -12, 4, -6]
    } else {
        seq![-3int, 10, -8, -4, 1, -10, 5, -5, -2, 3, 1, 1, -1, -6, 8, -12, 4, -6]
    }
}

/// The name of the open pro division, which plays its own layout.
pub const PRO_DIVISION: &'static str = "Mixed Pro Open";

/// The index of the first average on hole `hole` that has results, from
/// `from` on.
pub open spec fn first_stat(stats: Seq<HoleAverage>, hole: u8, from: int) -> Option<int>
    decreases stats.len() - from,
{
    if from < 0 || from >= stats.len() {
        None
    } else if stats[from].hole_number == hole && stats[from].has_results {
        Some(from)
    } else {
        first_stat(stats, hole, from + 1)
    }
}

proof fn lemma_first_stat(stats: Seq<HoleAverage>, hole: u8, from: int)
    requires
        0 <= from,
    ensures
        first_stat(stats, hole, from) matches Some(k) ==> from <= k < stats.len(),
    decreases stats.len() - from,
{
    if from < stats.len() && !(stats[from].hole_number == hole && stats[from].has_results) {
        lemma_first_stat(stats, hole, from + 1);
    }
}

fn find_stat(stats: &Vec<HoleAverage>, hole: u8) -> (r: Option<usize>)
    ensures
        match first_stat(stats@, hole, 0) {
            Some(k) => r matches Some(i) && i as int == k && i < stats@.len(),
            None => r is None,
        },
{
    proof {
        lemma_first_stat(stats@, hole, 0);
    }
    let mut i: usize = 0;
    while i < stats.len()
        invariant
            i <= stats@.len(),
            first_stat(stats@, hole, 0) == first_stat(stats@, hole, i as int),
        decreases stats@.len() - i,
    {
        if stats[i].hole_number == hole && stats[i].has_results {
            return Some(i);
        }
        i = i + 1;
    }
    None
}

fn elevation(hole: u8, pro: bool) -> (r: i16)
    requires
        1 <= hole <= 18,
    ensures
        r == elevation_table(pro)[hole - 1],
{
    let table: [i16; 18] = if pro {
        [-3, 10, -8, -4, 1, -10, 8, 11, -4, 3, 1, 1, -1, -6, 8, -12, 4, -6]
    } else {
        [-3, 10, -8, -4, 1, -10, 5, -5, -2, 3, 1, 1, -1, -6, 8, -12, 4, -6]
    };
    proof {
        assert(table@.map_values(|e: i16| e as int) =~= elevation_table(pro));
    }
    table[(hole - 1) as usize]
}

impl PlayerRound {
    /// The fields of the hole-information title for hole `hole`: number, par,
    /// length in metres and in feet, the average result and the difficulty
    /// where the hole has results, and the elevation.
    pub fn get_hole_info(
        &self,
        hole: u8,
        hole_stats: Vec<HoleAverage>,
        feet: u16,
        holes: &Holes,
        division: &Division,
    ) -> (r: Vec<VMixInterfacer<VMixHoleInfo>>)
        requires
            find_hole_spec(holes.holes@, hole) matches Some(h) && 1 <= h.hole <= 18,
        ensures
            ({
                let h = find_hole_spec(holes.holes@, hole)->0;
                let elev = elevation_table(division.name@ == PRO_DIVISION@)[h.hole - 1] as i16;
                &&& forall|i: int| 0 <= i < r@.len() ==> (#[trigger] r@[i]).function == VMixFunction::SetText && r@[i].value is None
                &&& r@.len() >= 5
                &&& r@[0].input == Some(VMixHoleInfo::Hole(h.hole))
                &&& r@[1].input == Some(VMixHoleInfo::HolePar(h.par))
                &&& r@[2].input == Some(VMixHoleInfo::HoleMeters(h.length))
                &&& r@[3].input == Some(VMixHoleInfo::HoleFeet(feet))
                &&& r@.last().input == Some(VMixHoleInfo::Elevation(elev))
                &&& match first_stat(hole_stats@, h.hole, 0) {
                    Some(k) => r@.len() == 7
                        && r@[4].input == Some(VMixHoleInfo::AverageResult { score: hole_stats@[k].score, sign: hole_stats@[k].sign })
                        && (r@[5].input matches Some(VMixHoleInfo::Difficulty { hole: n, difficulty: d })
                            && n == h.hole as usize && d.holes@ == difficulty_ranks(hole_stats@)),
                    None => r@.len() == 5,
                }
            }),
            hole_info_parts(parts_of(r@), hole, hole_stats@, feet, holes.holes@, *division),
    {
        let h = holes.find_hole(hole).unwrap();
        let mut r: Vec<VMixInterfacer<VMixHoleInfo>> = Vec::new();
        r.push(VMixInterfacer::set_only_input(VMixHoleInfo::Hole(h.hole)));
        r.push(VMixInterfacer::set_only_input(VMixHoleInfo::HolePar(h.par)));
        r.push(VMixInterfacer::set_only_input(VMixHoleInfo::HoleMeters(h.length)));
        r.push(VMixInterfacer::set_only_input(VMixHoleInfo::HoleFeet(feet)));
        match find_stat(&hole_stats, h.hole) {
            Some(k) => {
                let stat = hole_stats[k];
                r.push(VMixInterfacer::set_only_input(VMixHoleInfo::AverageResult { score: stat.score, sign: stat.sign }));
                let difficulty = HoleDifficulty::new(hole_stats);
                r.push(VMixInterfacer::set_only_input(VMixHoleInfo::Difficulty { difficulty, hole: h.hole as usize }));
            },
            None => {},
        }
        let pro = str_eq(division.name.as_str(), PRO_DIVISION);
        r.push(VMixInterfacer::set_only_input(VMixHoleInfo::Elevation(elevation(h.hole, pro))));
        r
    }

    /// The fields of the drone-shot title: the hole information, and the map
    /// of hole `hole` for the division's layout.
    pub fn get_drone_info(&self, hole: u8, funcs: Vec<VMixInterfacer<VMixHoleInfo>>, division: &Division) -> (r: Vec<VMixInterfacer<DroneHoleInfo>>)
        ensures
            r@.len() == funcs@.len() + 1,
            forall|i: int| 0 <= i < funcs@.len() ==> (#[trigger] r@[i]).function == funcs@[i].function
                && r@[i].value_view() == funcs@[i].value_view()
                && r@[i].input == match funcs@[i].input {
                    Some(x) => Some(DroneHoleInfo::Standard(x)),
                    None => None,
                },
            r@.last().function == VMixFunction::SetImage,
            r@.last().input == Some(DroneHoleInfo::HoleMap),
            r@.last().value_view() == Some("C:\\livegrafik-flipup\\holemaps\\"@
                + (if division.name@ == PRO_DIVISION@ { "mpo"@ } else { "fpo"@ }) + "hole"@ + nat_to_dec(hole as nat) + ".png"@),
    {
        let mut out: Vec<VMixInterfacer<DroneHoleInfo>> = Vec::new();
        let mut funcs = funcs;
        let ghost original = funcs@;
        let n = funcs.len();
        let mut rest: Vec<VMixInterfacer<VMixHoleInfo>> = Vec::new();
        while funcs.len() > 0
            invariant
                funcs@.len() + rest@.len() == n,
                n == original.len(),
                funcs@ =~= original.take(funcs@.len() as int),
                rest@.len() <= n,
                forall|j: int| 0 <= j < rest@.len() ==> #[trigger] rest@[j] == original[n - 1 - j],
            decreases funcs@.len(),
        {
            let f = funcs.pop().unwrap();
            rest.push(f);
        }
        while rest.len() > 0
            invariant
                rest@.len() + out@.len() == n,
                n == original.len(),
                forall|j: int| 0 <= j < rest@.len() ==> #[trigger] rest@[j] == original[n - 1 - j],
                forall|i: int| 0 <= i < out@.len() ==> (#[trigger] out@[i]).function == original[i].function
                    && out@[i].value_view() == original[i].value_view()
                    && out@[i].input == match original[i].input {
                        Some(x) => Some(DroneHoleInfo::Standard(x)),
                        None => None,
                    },
            decreases rest@.len(),
        {
            let f = rest.pop().unwrap();
            out.push(f.into_drone_hole_info());
        }
        let pro = str_eq(division.name.as_str(), PRO_DIVISION);
        let mut path = String::from_str("C:\\livegrafik-flipup\\holemaps\\");
        if pro {
            path.append("mpo");
        } else {
            path.append("fpo");
        }
        path.append("hole");
        path.append(usize_to_string(hole as usize).as_str());
        path.append(".png");
        out.push(VMixInterfacer::set_image(path, DroneHoleInfo::HoleMap));
        out
    }

    /// How many holes count as played, as a byte.
    pub fn amount_of_holes_finished(&self) -> (r: u8)
        ensures
            r == done_results(self.results@).len() as u8,
    {
        let ghost pred = |r: HoleResult| r.is_done();
        let mut count: usize = 0;
        let mut i: usize = 0;
        while i < self.results.len()
            invariant
                i <= self.results@.len(),
                pred == (|r: HoleResult| r.is_done()),
                count == self.results@.take(i as int).filter(pred).len(),
                count <= i,
            decreases self.results@.len() - i,
        {
            proof {
                assert(self.results@.take(i + 1) =~= self.results@.take(i as int).push(self.results@[i as int]));
                self.results@.take(i as int).lemma_filter_push(self.results@[i as int], pred);
            }
            let r = self.results[i];
            let done = r.finished || (match r.tjing_result {
                Some(t) => t.is_verified,
                None => false,
            }) || r.throws != 0;
            if done {
                count = count + 1;
            }
            i = i + 1;
        }
        proof {
            assert(self.results@.take(self.results@.len() as int) =~= self.results@);
        }
        #[verifier::truncate] (count as u8)
    }

    /// The key a played hole is ordered by: its number once all eighteen are
    /// played, else its place in the order of play from the starting hole.
    pub open spec fn completion_key(self, r: HoleResult) -> u8 {
        if done_results(self.results@).len() as u8 == 18 {
            r.hole
        } else {
            (((r.hole - 1 + self.start_at_hole) as u8) % 19) as u8
        }
    }

    /// Whether the keys of the played holes can be computed in bytes.
    pub open spec fn keys_fit(self) -> bool {
        done_results(self.results@).len() as u8 != 18 ==> forall|i: int|
            0 <= i < done_results(self.results@).len() ==> 1 <= #[trigger] done_results(self.results@)[i].hole
                && done_results(self.results@)[i].hole - 1 + self.start_at_hole <= u8::MAX
    }

    /// The played holes in the order they were played.
    pub open spec fn completion_order(self) -> Seq<HoleResult> {
        stable_sorted(done_results(self.results@).map_values(
            |r: HoleResult| KeyedResult { key: self.completion_key(r), result: r },
        )).map_values(|k: KeyedResult| k.result)
    }

    fn holes_sorted_by_completion(&self) -> (r: Vec<HoleResult>)
        requires
            self.keys_fit(),
        ensures
            r@ == self.completion_order(),
    {
        let amount_finished = self.amount_of_holes_finished();
        let ghost pred = |r: HoleResult| r.is_done();
        let ghost keyed = |r: HoleResult| KeyedResult { key: self.completion_key(r), result: r };
        let mut keys: Vec<KeyedResult> = Vec::new();
        let mut i: usize = 0;
        while i < self.results.len()
            invariant
                i <= self.results@.len(),
                pred == (|r: HoleResult| r.is_done()),
                keyed == (|r: HoleResult| KeyedResult { key: self.completion_key(r), result: r }),
                amount_finished == done_results(self.results@).len() as u8,
                self.keys_fit(),
                keys@ =~= self.results@.take(i as int).filter(pred).map_values(keyed),
            decreases self.results@.len() - i,
        {
            proof {
                assert(self.results@.take(i + 1) =~= self.results@.take(i as int).push(self.results@[i as int]));
                self.results@.take(i as int).lemma_filter_push(self.results@[i as int], pred);
            }
            let r = self.results[i];
            let done = r.finished || (match r.tjing_result {
                Some(t) => t.is_verified,
                None => false,
            }) || r.throws != 0;
            if done {
                proof {
                    if amount_finished != 18 {
                        let f = self.results@.take(i as int).filter(pred);
                        assert(self.results@.take(i + 1).filter(pred) == f.push(r));
                        lemma_filter_prefix_index(self.results@, pred, (i + 1) as int);
                        let d = done_results(self.results@);
                        assert(self.results@.take(i + 1).filter(pred)[f.len() as int] == r);
                        assert(d[f.len() as int] == r);
                    }
                }
                let key: u8 = if amount_finished == 18 {
                    r.hole
                } else {
                    (r.hole - 1 + self.start_at_hole) % 19
                };
                keys.push(KeyedResult { key, result: r });
            }
            i = i + 1;
        }
        proof {
            assert(self.results@.take(self.results@.len() as int) =~= self.results@);
        }
        let sorted = crate::sort::sorted_by_order(keys);
        let mut out: Vec<HoleResult> = Vec::new();
        let mut j: usize = 0;
        while j < sorted.len()
            invariant
                j <= sorted@.len(),
                out@ =~= sorted@.take(j as int).map_values(|k: KeyedResult| k.result),
            decreases sorted@.len() - j,
        {
            out.push(sorted[j].result);
            j = j + 1;
        }
        proof {
            assert(sorted@.take(sorted@.len() as int) =~= sorted@);
        }
        out
    }

    /// The hole played last.
    pub fn latest_hole_finished(&self) -> (r: Option<HoleResult>)
        requires
            self.keys_fit(),
        ensures
            self.completion_order().len() == 0 ==> r is None,
            self.completion_order().len() > 0 ==> r == Some(self.completion_order().last()),
    {
        let order = self.holes_sorted_by_completion();
        if order.len() == 0 {
            None
        } else {
            Some(order[order.len() - 1])
        }
    }

    /// The last `take_amount` holes played, in order, padded with `None` to
    /// `take_amount` entries.
    pub fn the_latest_6_holes(&self, take_amount: usize) -> (r: Vec<Option<HoleResult>>)
        requires
            self.keys_fit(),
        ensures
            ({
                let order = self.completion_order();
                let k = if take_amount < order.len() { take_amount as int } else { order.len() as int };
                &&& r@.len() == take_amount
                &&& forall|i: int| 0 <= i < k ==> #[trigger] r@[i] == Some(order[order.len() - k + i])
                &&& forall|i: int| k <= i < take_amount ==> #[trigger] r@[i] is None
            }),
    {
        let order = self.holes_sorted_by_completion();
        let n = order.len();
        let k = if take_amount < n { take_amount } else { n };
        let mut out: Vec<Option<HoleResult>> = Vec::new();
        let mut i: usize = 0;
        while i < k
            invariant
                i <= k,
                k <= n,
                n == order@.len(),
                k <= take_amount,
                out@.len() == i,
                forall|j: int| 0 <= j < i ==> #[trigger] out@[j] == Some(order@[n - k + j]),
            decreases k - i,
        {
            out.push(Some(order[n - k + i]));
            i = i + 1;
        }
        while out.len() < take_amount
            invariant
                k <= out@.len() <= take_amount,
                k <= n,
                n == order@.len(),
                forall|j: int| 0 <= j < k ==> #[trigger] out@[j] == Some(order@[n - k + j]),
                forall|j: int| k <= j < out@.len() ==> #[trigger] out@[j] is None,
            decreases take_amount - out@.len(),
        {
            out.push(None);
        }
        out
    }
}

/// The element of a filtered sequence that comes from a prefix: filtering a
/// prefix gives a prefix of the filtered sequence.
proof fn lemma_filter_prefix_index(s: Seq<HoleResult>, pred: spec_fn(HoleResult) -> bool, n: int)
    requires
        0 <= n <= s.len(),
    ensures
        s.take(n).filter(pred).len() <= s.filter(pred).len(),
        forall|i: int| 0 <= i < s.take(n).filter(pred).len() ==> #[trigger] s.take(n).filter(pred)[i] == s.filter(pred)[i],
    decreases s.len() - n,
{
    if n < s.len() {
        lemma_filter_prefix_index(s, pred, n + 1);
        assert(s.take(n + 1) =~= s.take(n).push(s[n]));
        s.take(n).lemma_filter_push(s[n], pred);
        let a = s.take(n).filter(pred);
        let b = s.take(n + 1).filter(pred);
        assert forall|i: int| 0 <= i < a.len() implies #[trigger] a[i] == s.filter(pred)[i] by {
            assert(a[i] == b[i]);
        }
    } else {
        assert(s.take(n) =~= s);
    }
}

/// Whether calls, given by their parts, are the hole card of hole `hole`:
/// its number, par, length in metres and feet, the average result and the
/// difficulty where the hole has statistics, and the elevation (see
/// `PlayerRound::get_hole_info`).
pub open spec fn hole_info_parts(
    ps: Seq<(VMixFunction, Option<VMixHoleInfo>, Option<Seq<char>>)>,
    hole: u8,
    hole_stats: Seq<HoleAverage>,
    feet: u16,
    holes: Seq<Hole>,
    division: Division,
) -> bool {
    let h = find_hole_spec(holes, hole)->0;
    let elev = elevation_table(division.name@ == PRO_DIVISION@)[h.hole - 1] as i16;
    &&& forall|i: int| 0 <= i < ps.len() ==> (#[trigger] ps[i]).0 == VMixFunction::SetText && ps[i].2 is None
    &&& ps.len() >= 5
    &&& ps[0].1 == Some(VMixHoleInfo::Hole(h.hole))
    &&& ps[1].1 == Some(VMixHoleInfo::HolePar(h.par))
    &&& ps[2].1 == Some(VMixHoleInfo::HoleMeters(h.length))
    &&& ps[3].1 == Some(VMixHoleInfo::HoleFeet(feet))
    &&& ps.last().1 == Some(VMixHoleInfo::Elevation(elev))
    &&& match first_stat(hole_stats, h.hole, 0) {
        Some(k) => ps.len() == 7
            && ps[4].1 == Some(VMixHoleInfo::AverageResult { score: hole_stats[k].score, sign: hole_stats[k].sign })
            && (ps[5].1 matches Some(VMixHoleInfo::Difficulty { hole: n, difficulty: d })
                && n == h.hole as usize && d.holes@ == difficulty_ranks(hole_stats)),
        None => ps.len() == 5,
    }
}

} // verus!
