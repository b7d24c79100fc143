//! The leaderboard: players ranked by their scores, and the calls that show it.
use vstd::prelude::*;

use crate::division::Division;
use crate::leaderboard_prop::{short_name, shortenable_name, top6_of, CycledLeaderboard, FeaturedLeaderboard, LeaderBoardProperty, LeaderboardTop6};
use crate::player::{all_score_updates, deleted_scores, first_numbered, holes_after, is_open, latest_holes, parts_of, relative_sum, round_fits, score_update, shown_score_updates, total_score_update, BroadcastType, Player};
use crate::round::{HoleResult, DEFAULT_FOREGROUND_COL_ALPHA};
use crate::round::done_results;
use crate::score::Image;
use crate::sort::{stable_sort, stable_sorted, SortKey};
use crate::text::{fix_score, int_to_dec, join2, nat_to_dec, score_text, str_eq, usize_to_string};
use crate::vmix::{Compare2x2, VMixFunction, VMixInterfacer, VMixPlayerInfo};

verus! {

/// Whether a player is out of the round (did not finish or did not start).
pub open spec fn is_out(p: Player) -> bool {
    p.dnf || p.dns
}

/// The order of PDGA numbers: a player without one comes first.
pub open spec fn pdga_le(a: Option<u32>, b: Option<u32>) -> bool {
    match (a, b) {
        (None, _) => true,
        (Some(_), None) => false,
        (Some(x), Some(y)) => x <= y,
    }
}

/// The leaderboard order: players in the round before those out of it; then
/// by total score, by round score and by PDGA number, lowest first.
impl SortKey for Player {
    open spec fn le_spec(&self, other: &Self) -> bool {
        if is_out(*self) {
            is_out(*other)
        } else if is_out(*other) {
            true
        } else if self.total_score != other.total_score {
            self.total_score < other.total_score
        } else if self.round_score != other.round_score {
            self.round_score < other.round_score
        } else {
            pdga_le(self.pdga_num, other.pdga_num)
        }
    }

    proof fn lemma_le_total(a: &Self, b: &Self) {
    }

    proof fn lemma_le_transitive(a: &Self, b: &Self, c: &Self) {
    }

    fn le(&self, other: &Self) -> (r: bool) {
        let a_out = self.dnf || self.dns;
        let b_out = other.dnf || other.dns;
        if a_out {
            b_out
        } else if b_out {
            true
        } else if self.total_score != other.total_score {
            self.total_score < other.total_score
        } else if self.round_score != other.round_score {
            self.round_score < other.round_score
        } else {
            match (self.pdga_num, other.pdga_num) {
                (None, _) => true,
                (Some(_), None) => false,
                (Some(x), Some(y)) => x <= y,
            }
        }
    }
}

/// A board in leaderboard order puts the leader first: of two players in the
/// round, the earlier has the lower (or equal) total, and on equal totals the
/// lower (or equal) round score; a player out of the round is followed only by
/// players out of the round.
pub proof fn lemma_board_order(ps: Seq<Player>)
    ensures
        forall|i: int, j: int| 0 <= i < j < stable_sorted(ps).len() && !is_out(#[trigger] stable_sorted(ps)[i])
            && !is_out(#[trigger] stable_sorted(ps)[j]) ==> {
                &&& stable_sorted(ps)[i].total_score <= stable_sorted(ps)[j].total_score
                &&& stable_sorted(ps)[i].total_score == stable_sorted(ps)[j].total_score
                    ==> stable_sorted(ps)[i].round_score <= stable_sorted(ps)[j].round_score
            },
        forall|i: int, j: int| 0 <= i < j < stable_sorted(ps).len() && is_out(#[trigger] stable_sorted(ps)[i])
            ==> is_out(#[trigger] stable_sorted(ps)[j]),
{
    crate::sort::lemma_stable_sorted(ps);
    let t = stable_sorted(ps);
    assert forall|i: int, j: int| 0 <= i < j < t.len() && !is_out(#[trigger] t[i]) && !is_out(#[trigger] t[j]) implies {
        &&& t[i].total_score <= t[j].total_score
        &&& t[i].total_score == t[j].total_score ==> t[i].round_score <= t[j].round_score
    } by {
        assert(t[i].le_spec(&t[j]));
    }
    assert forall|i: int, j: int| 0 <= i < j < t.len() && is_out(#[trigger] t[i]) implies is_out(#[trigger] t[j]) by {
        assert(t[i].le_spec(&t[j]));
    }
}

/// How a player moved since the previous leaderboard.
#[derive(Clone, Copy, Debug, PartialEq, Eq, Structural)]
pub enum LeaderboardMovement {
    Up(usize),
    Down(usize),
    Same,
}

impl LeaderboardMovement {
    /// The move from `other_pos` to `pos`: a larger position number is `Up`,
    /// by the difference.
    pub open spec fn spec_between(pos: usize, other_pos: usize) -> LeaderboardMovement {
        if pos < other_pos {
            LeaderboardMovement::Down((other_pos - pos) as usize)
        } else if pos > other_pos {
            LeaderboardMovement::Up((pos - other_pos) as usize)
        } else {
            LeaderboardMovement::Same
        }
    }

    pub fn new(pos: usize, other_pos: usize) -> (r: Self)
        ensures
            r == Self::spec_between(pos, other_pos),
    {
        if pos < other_pos {
            LeaderboardMovement::Down(other_pos - pos)
        } else if pos > other_pos {
            LeaderboardMovement::Up(pos - other_pos)
        } else {
            LeaderboardMovement::Same
        }
    }
}

/// The positions of players ordered by total score: the first has position
/// one; a player with the total of the one before shares that position, any
/// other has its place in the list.
pub open spec fn positions(totals: Seq<isize>) -> Seq<usize>
    decreases totals.len(),
{
    if totals.len() == 0 {
        seq![]
    } else {
        let rest = positions(totals.drop_last());
        let n = totals.len() - 1;
        rest.push(if n > 0 && totals[n] == totals[n - 1] { rest[n - 1] } else { (n + 1) as usize })
    }
}

proof fn lemma_positions_len(totals: Seq<isize>)
    ensures
        positions(totals).len() == totals.len(),
    decreases totals.len(),
{
    if totals.len() > 0 {
        lemma_positions_len(totals.drop_last());
    }
}

proof fn lemma_positions_prefix(totals: Seq<isize>, n: int)
    requires
        0 <= n <= totals.len(),
    ensures
        positions(totals.take(n)) == positions(totals).take(n),
    decreases totals.len() - n,
{
    lemma_positions_len(totals);
    if n < totals.len() {
        lemma_positions_prefix(totals, n + 1);
        assert(totals.take(n + 1).drop_last() =~= totals.take(n));
        lemma_positions_len(totals.take(n));
        assert(positions(totals).take(n + 1).drop_last() =~= positions(totals).take(n));
    } else {
        assert(totals.take(n) =~= totals);
        assert(positions(totals).take(n) =~= positions(totals));
    }
}

/// The number of totals before index `i` that are lower than `t`.
pub open spec fn count_below(totals: Seq<isize>, t: isize, i: int) -> nat
    decreases i,
{
    if i <= 0 {
        0
    } else {
        count_below(totals, t, i - 1) + if totals[i - 1] < t { 1nat } else { 0nat }
    }
}

/// On a list ordered by total score, the position of each player is one more
/// than the number of players with a lower total: tied players share a
/// position, and the next one is counted past them.
pub proof fn lemma_position_counts_lower(totals: Seq<isize>, i: int)
    requires
        forall|a: int, b: int| 0 <= a < b < totals.len() ==> totals[a] <= totals[b],
        0 <= i < totals.len(),
        totals.len() < usize::MAX,
    ensures
        positions(totals)[i] == count_below(totals, totals[i], totals.len() as int) + 1,
    decreases i,
{
    lemma_positions_len(totals);
    lemma_positions_prefix(totals, i + 1);
    lemma_positions_prefix(totals, i);
    let t = totals.take(i + 1);
    assert(t.drop_last() =~= totals.take(i));
    lemma_positions_len(t.drop_last());
    assert(positions(t).last() == positions(totals)[i]);
    lemma_count_below_sorted(totals, totals[i], totals.len() as int, i);
    if i > 0 && totals[i] == totals[i - 1] {
        assert(positions(t.drop_last())[i - 1] == positions(totals)[i - 1]);
        assert(positions(totals)[i] == positions(totals)[i - 1]);
        lemma_position_counts_lower(totals, i - 1);
    } else {
        assert(t[i] == totals[i]);
        assert(i > 0 ==> t[i - 1] == totals[i - 1]);
        assert(positions(totals)[i] == i + 1);
        lemma_count_below_all(totals, totals[i], i);
    }
}

/// On an ordered list, the totals lower than the one at `k` all come before
/// the first index with that total: counting to the end counts the same.
proof fn lemma_count_below_sorted(totals: Seq<isize>, t: isize, n: int, k: int)
    requires
        forall|a: int, b: int| 0 <= a < b < totals.len() ==> totals[a] <= totals[b],
        0 <= k < totals.len(),
        totals[k] == t,
        k <= n <= totals.len(),
    ensures
        count_below(totals, t, n) == count_below(totals, t, k),
    decreases n - k,
{
    if n > k {
        lemma_count_below_sorted(totals, t, n - 1, k);
    }
}

/// When every total before `i` is lower than `t`, all `i` are counted.
proof fn lemma_count_below_all(totals: Seq<isize>, t: isize, i: int)
    requires
        forall|a: int, b: int| 0 <= a < b < totals.len() ==> totals[a] <= totals[b],
        0 <= i < totals.len(),
        totals[i] == t,
        i > 0 ==> totals[i - 1] != t,
    ensures
        count_below(totals, t, i) == i,
    decreases i,
{
    if i > 0 {
        assert(totals[i - 1] <= totals[i]);
        assert(totals[i - 1] < t);
        lemma_count_below_all_rec(totals, t, i - 1);
    }
}

proof fn lemma_count_below_all_rec(totals: Seq<isize>, t: isize, i: int)
    requires
        forall|a: int, b: int| 0 <= a < b < totals.len() ==> totals[a] <= totals[b],
        0 <= i < totals.len(),
        totals[i] < t,
    ensures
        count_below(totals, t, i) == i,
    decreases i,
{
    if i > 0 {
        assert(totals[i - 1] <= totals[i]);
        lemma_count_below_all_rec(totals, t, i - 1);
    }
}

/// The total scores of the players, in order.
pub open spec fn totals_of(players: Seq<&Player>) -> Seq<isize> {
    players.map_values(|p: &Player| p.total_score)
}

/// Gives each player of a list ordered by total score its position (see
/// `positions`).
pub fn players_with_positions<'a>(players: Vec<&'a Player>) -> (r: Vec<(usize, &'a Player)>)
    ensures
        r@.len() == players@.len(),
        forall|i: int| #![trigger r@[i]] 0 <= i < r@.len() ==> r@[i].1 == players@[i] && r@[i].0 == positions(totals_of(players@))[i],
{
    let mut out: Vec<(usize, &'a Player)> = Vec::new();
    let mut pos: usize = 1;
    let mut same_score_count: usize = 0;
    let mut last_score: isize = if players.len() > 0 { players[0].total_score } else { 0 };
    let ghost totals = totals_of(players@);
    let mut i: usize = 0;
    proof {
        lemma_positions_len(totals);
    }
    while i < players.len()
        invariant
            i <= players@.len(),
            totals == totals_of(players@),
            positions(totals).len() == totals.len(),
            out@.len() == i,
            forall|j: int| #![trigger out@[j]] 0 <= j < i ==> out@[j].1 == players@[j] && out@[j].0 == positions(totals)[j],
            i > 0 ==> last_score == totals[i - 1] && pos == positions(totals)[i - 1] && pos + same_score_count == i + 1,
            i > 0 ==> 1 <= same_score_count <= i,
            i == 0 ==> pos == 1 && same_score_count == 0 && (players@.len() > 0 ==> last_score == totals[0]),
            pos >= 1,
        decreases players@.len() - i,
    {
        proof {
            lemma_positions_prefix(totals, i + 1);
            let t = totals.take(i + 1);
            assert(t.drop_last() =~= totals.take(i as int));
            lemma_positions_prefix(totals, i as int);
            assert(positions(t).last() == positions(totals)[i as int]);
        }
        let player = players[i];
        if player.total_score != last_score {
            pos = pos + same_score_count;
            same_score_count = 0;
        }
        same_score_count = same_score_count + 1;
        last_score = player.total_score;
        out.push((pos, player));
        i = i + 1;
    }
    out
}

/// A row of the leaderboard.
#[derive(Clone, Debug)]
pub struct LeaderboardPlayer {
    pub id: String,
    pub index: usize,
    pub position: usize,
    pub movement: LeaderboardMovement,
    pub hot_round: bool,
    pub name: String,
    pub round_score: isize,
    pub total_score: isize,
    pub thru: u8,
    pub tied: Option<u8>,
    pub dns: bool,
    pub dnf: bool,
}

/// The index of the first row with the given player id, from `from` on.
pub open spec fn first_with_id(s: Seq<LeaderboardPlayer>, id: Seq<char>, from: int) -> Option<int>
    decreases s.len() - from,
{
    if from < 0 || from >= s.len() {
        None
    } else if s[from].id@ == id {
        Some(from)
    } else {
        first_with_id(s, id, from + 1)
    }
}

proof fn lemma_first_with_id(s: Seq<LeaderboardPlayer>, id: Seq<char>, from: int)
    requires
        0 <= from,
    ensures
        first_with_id(s, id, from) matches Some(k) ==> from <= k < s.len(),
    decreases s.len() - from,
{
    if from < s.len() && s[from].id@ != id {
        lemma_first_with_id(s, id, from + 1);
    }
}

/// The number of players among the first `n` of the same division as `p`
/// with the total of `p`.
pub open spec fn tie_count(s: Seq<Player>, p: Player, n: int) -> nat
    decreases n,
{
    if n <= 0 {
        0
    } else {
        tie_count(s, p, n - 1) + if s[n - 1].division.id@ == p.division.id@ && s[n - 1].total_score == p.total_score {
            1nat
        } else {
            0nat
        }
    }
}

/// The move of a player since the other leaderboard, where they were on it.
pub open spec fn movement_since(pos: usize, id: Seq<char>, other: Option<Seq<LeaderboardPlayer>>) -> LeaderboardMovement {
    match other {
        Some(o) => match first_with_id(o, id, 0) {
            Some(k) => LeaderboardMovement::spec_between(pos, o[k].position),
            None => LeaderboardMovement::Same,
        },
        None => LeaderboardMovement::Same,
    }
}

/// The calls of a leaderboard row, as `combine` makes them.
pub open spec fn row_calls(p: LeaderboardPlayer) -> Seq<(VMixFunction, Option<LeaderBoardProperty>, Option<Seq<char>>)> {
    seq![
        (VMixFunction::SetImage, Some(LeaderBoardProperty::HotRound(p.index)),
            Some(if p.hot_round { Image::Flames.location() } else { Image::Nothing.location() })),
        (VMixFunction::SetText, Some(LeaderBoardProperty::RoundScore(p.index)), Some(score_text(p.round_score as int))),
        (VMixFunction::SetText, Some(LeaderBoardProperty::TotalScore { pos: p.index }), Some(score_text(p.total_score as int))),
        (VMixFunction::SetText, Some(LeaderBoardProperty::Position { pos: p.index }),
            Some(if p.tied is Some { "T"@ + nat_to_dec(p.position as nat) } else { nat_to_dec(p.position as nat) })),
        (VMixFunction::SetImage, Some(LeaderBoardProperty::Arrow { pos: p.index }), Some(match p.movement {
            LeaderboardMovement::Up(_) => Image::RedTriDown.location(),
            LeaderboardMovement::Down(_) => Image::GreenTriUp.location(),
            LeaderboardMovement::Same => Image::Nothing.location(),
        })),
        (VMixFunction::SetText, Some(LeaderBoardProperty::Move { pos: p.index }), Some(match p.movement {
            LeaderboardMovement::Up(n) | LeaderboardMovement::Down(n) => nat_to_dec(n as nat),
            LeaderboardMovement::Same => " "@,
        })),
        (VMixFunction::SetText, Some(LeaderBoardProperty::Thru(p.index)), Some(
            if p.thru == 18 { "F"@ } else if p.dns { "DNS"@ } else if p.dnf { "DNF"@ } else { nat_to_dec(p.thru as nat) },
        )),
        (VMixFunction::SetText, Some(LeaderBoardProperty::Name(p.index)), Some(p.name@)),
    ]
}

impl LeaderboardPlayer {
    /// The row of `player` at position `pos`, shown in row `index`: its move
    /// since the other board, a hot round when the round score is the lowest
    /// of the round (after the first round), and whether others share its
    /// total in its division.
    pub fn new(
        player: &Player,
        pos: usize,
        index: usize,
        min_score_reached: isize,
        other_board: Option<&Vec<LeaderboardPlayer>>,
        round: usize,
        all_other_players: &[Player],
    ) -> (r: Self)
        ensures
            r.id@ == player.player_id@,
            r.index == index,
            r.position == pos,
            r.movement == movement_since(pos, player.player_id@, match other_board {
                Some(o) => Some(o@),
                None => None,
            }),
            r.hot_round == (player.round_score == min_score_reached && round != 0),
            r.name@ == player.name@,
            r.round_score == player.round_score,
            r.total_score == player.total_score,
            r.thru == done_results(player.rs()).len() as u8,
            r.tied == (if tie_count(all_other_players@, *player, all_other_players@.len() as int) > 1 {
                Some(tie_count(all_other_players@, *player, all_other_players@.len() as int) as u8)
            } else {
                None
            }),
            r.dns == player.dns,
            r.dnf == player.dnf,
    {
        let mut movement = LeaderboardMovement::Same;
        match other_board {
            Some(players) => {
                proof {
                    lemma_first_with_id(players@, player.player_id@, 0);
                }
                let mut i: usize = 0;
                while i < players.len()
                    invariant_except_break
                        i <= players@.len(),
                        first_with_id(players@, player.player_id@, 0) == first_with_id(players@, player.player_id@, i as int),
                        movement == LeaderboardMovement::Same,
                    ensures
                        movement == movement_since(pos, player.player_id@, Some(players@)),
                    decreases players@.len() - i,
                {
                    if str_eq(players[i].id.as_str(), player.player_id.as_str()) {
                        movement = LeaderboardMovement::new(pos, players[i].position);
                        break;
                    }
                    i = i + 1;
                }
            },
            None => {},
        }
        let mut tie: usize = 0;
        let mut j: usize = 0;
        while j < all_other_players.len()
            invariant
                j <= all_other_players@.len(),
                tie == tie_count(all_other_players@, *player, j as int),
                tie <= j,
            decreases all_other_players@.len() - j,
        {
            let other = &all_other_players[j];
            if str_eq(other.division.id.as_str(), player.division.id.as_str()) && other.total_score == player.total_score {
                tie = tie + 1;
            }
            j = j + 1;
        }
        let tied = if tie > 1 {
            Some(#[verifier::truncate] (tie as u8))
        } else {
            None
        };
        LeaderboardPlayer {
            index,
            position: pos,
            movement,
            hot_round: player.round_score == min_score_reached && round != 0,
            name: player.name.clone(),
            round_score: player.round_score,
            total_score: player.total_score,
            thru: player.results.amount_of_holes_finished(),
            tied,
            id: player.player_id.clone(),
            dns: player.dns,
            dnf: player.dnf,
        }
    }

    /// The calls that fill the row of the player on the big leaderboard.
    pub fn combine(&self) -> (r: Vec<VMixInterfacer<LeaderBoardProperty>>)
        ensures
            parts_of(r@) == row_calls(*self),
    {
        let mut v = Vec::new();
        let hot = if self.hot_round { Image::Flames } else { Image::Nothing };
        v.push(VMixInterfacer::set_image(hot.to_location(), LeaderBoardProperty::HotRound(self.index)));
        v.push(VMixInterfacer::set_text(fix_score(self.round_score), LeaderBoardProperty::RoundScore(self.index)));
        v.push(VMixInterfacer::set_text(fix_score(self.total_score), LeaderBoardProperty::TotalScore { pos: self.index }));
        let position = match self.tied {
            Some(_) => join2("T", usize_to_string(self.position).as_str()),
            None => usize_to_string(self.position),
        };
        v.push(VMixInterfacer::set_text(position, LeaderBoardProperty::Position { pos: self.index }));
        let arrow = match self.movement {
            LeaderboardMovement::Up(_) => Image::RedTriDown,
            LeaderboardMovement::Down(_) => Image::GreenTriUp,
            LeaderboardMovement::Same => Image::Nothing,
        };
        v.push(VMixInterfacer::set_image(arrow.to_location(), LeaderBoardProperty::Arrow { pos: self.index }));
        let moved = match self.movement {
            LeaderboardMovement::Up(n) => usize_to_string(n),
            LeaderboardMovement::Down(n) => usize_to_string(n),
            LeaderboardMovement::Same => String::from_str(" "),
        };
        v.push(VMixInterfacer::set_text(moved, LeaderBoardProperty::Move { pos: self.index }));
        let thru = if self.thru == 18 {
            String::from_str("F")
        } else if self.dns {
            String::from_str("DNS")
        } else if self.dnf {
            String::from_str("DNF")
        } else {
            usize_to_string(self.thru as usize)
        };
        v.push(VMixInterfacer::set_text(thru, LeaderBoardProperty::Thru(self.index)));
        v.push(VMixInterfacer::set_text(self.name.clone(), LeaderBoardProperty::Name(self.index)));
        proof {
            assert(parts_of(v@) =~= row_calls(*self));
        }
        v
    }
}

/// Where the leaderboard starts.
#[derive(Clone, Copy, Debug, PartialEq, Eq, Structural)]
pub enum LeaderboardStart {
    Latest,
    Specific(u8),
}

/// The score of a whole round.
pub open spec fn full_round(p: Player) -> int {
    relative_sum(p.rs(), p.rs().len() as int)
}

/// The sum of the round scores of the first `n` previous players with the
/// given id.
pub open spec fn previous_total(prev: Seq<Player>, id: Seq<char>, n: int) -> int
    decreases n,
{
    if n <= 0 {
        0
    } else {
        previous_total(prev, id, n - 1) + if prev[n - 1].player_id@ == id { full_round(prev[n - 1]) } else { 0 }
    }
}

/// A player as the leaderboard of a round counts them: the round score from
/// all results, and the total from those of the same player in earlier rounds.
pub open spec fn counted(p: Player, prev: Seq<Player>) -> Player {
    Player {
        round_score: full_round(p) as isize,
        total_score: (previous_total(prev, p.player_id@, prev.len() as int) + full_round(p)) as isize,
        ..p
    }
}

/// Whether a player can be counted without overflow.
pub open spec fn can_count(p: Player, prev: Seq<Player>) -> bool {
    &&& round_fits(p.rs())
    &&& isize::MIN <= p.total_score + full_round(p) <= isize::MAX
    &&& forall|k: int| 0 <= k <= prev.len() ==> isize::MIN <= #[trigger] previous_total(prev, p.player_id@, k) <= isize::MAX
    &&& isize::MIN <= previous_total(prev, p.player_id@, prev.len() as int) + full_round(p) <= isize::MAX
}

/// The players of a division.
pub open spec fn in_division(players: Seq<Player>, division: Division) -> Seq<Player> {
    players.filter(division_pred(division))
}

/// Whether a player is of the division (by name).
pub open spec fn division_pred(division: Division) -> spec_fn(Player) -> bool {
    |p: Player| p.division.name@ == division.name@
}

/// A borrowed state, as a value.
pub open spec fn opt_state(other: Option<&LeaderboardState>) -> Option<LeaderboardState> {
    match other {
        Some(o) => Some(*o),
        None => None,
    }
}

/// The positions players had on the other board, by id.
pub open spec fn prev_fn(prev: Option<LeaderboardState>, division: Division) -> spec_fn(Seq<char>) -> Option<usize> {
    |id: Seq<char>| previous_position(prev, division, id)
}

/// The totals of the players of a division, in order.
pub open spec fn division_totals(players: Seq<Player>, division: Division) -> Seq<isize> {
    in_division(players, division).map_values(|p: Player| p.total_score)
}

/// The lowest round score, zero when there are no players.
pub open spec fn min_round(players: Seq<Player>) -> isize
    decreases players.len(),
{
    if players.len() == 0 {
        0
    } else if players.len() == 1 {
        players[0].round_score
    } else {
        let m = min_round(players.drop_last());
        if players.last().round_score < m { players.last().round_score } else { m }
    }
}

/// The lowest round score is the round score of some player, and no player
/// has a lower one.
pub proof fn lemma_min_round_is_lowest(players: Seq<Player>)
    ensures
        forall|i: int| 0 <= i < players.len() ==> min_round(players) <= (#[trigger] players[i]).round_score,
        players.len() > 0 ==> exists|i: int| 0 <= i < players.len() && (#[trigger] players[i]).round_score == min_round(players),
    decreases players.len(),
{
    if players.len() > 1 {
        let t = players.drop_last();
        lemma_min_round_is_lowest(t);
        assert forall|i: int| 0 <= i < players.len() implies min_round(players) <= (#[trigger] players[i]).round_score by {
            if i < t.len() {
                assert(players[i] == t[i]);
            }
        }
        if players.last().round_score < min_round(t) {
            assert(players[players.len() - 1].round_score == min_round(players));
        } else {
            let k = choose|k: int| 0 <= k < t.len() && (#[trigger] t[k]).round_score == min_round(t);
            assert(players[k] == t[k]);
        }
    } else if players.len() == 1 {
        assert(players[0].round_score == min_round(players));
    }
}

/// The index of the first player with the given id, from `from` on.
pub open spec fn first_player_with_id(s: Seq<Player>, id: Seq<char>, from: int) -> Option<int>
    decreases s.len() - from,
{
    if from < 0 || from >= s.len() {
        None
    } else if s[from].player_id@ == id {
        Some(from)
    } else {
        first_player_with_id(s, id, from + 1)
    }
}

/// The position a player had on the other leaderboard, for the division.
pub open spec fn previous_position(other: Option<LeaderboardState>, division: Division, id: Seq<char>) -> Option<usize> {
    match other {
        Some(o) => match first_player_with_id(in_division(o.players@, division), id, 0) {
            Some(k) => Some(positions(division_totals(o.players@, division))[k]),
            None => None,
        },
        None => None,
    }
}

/// Whether `row` is the row of player `p` (see `LeaderboardPlayer::new`).
pub open spec fn row_of(
    row: LeaderboardPlayer,
    p: Player,
    pos: usize,
    index: usize,
    min: isize,
    prev_pos: Option<usize>,
    round: usize,
    all: Seq<Player>,
) -> bool {
    &&& row.id@ == p.player_id@
    &&& row.index == index
    &&& row.position == pos
    &&& row.movement == match prev_pos {
        Some(o) => LeaderboardMovement::spec_between(pos, o),
        None => LeaderboardMovement::Same,
    }
    &&& row.hot_round == (p.round_score == min && round != 0)
    &&& row.name@ == p.name@
    &&& row.round_score == p.round_score
    &&& row.total_score == p.total_score
    &&& row.thru == done_results(p.rs()).len() as u8
    &&& row.tied == (if tie_count(all, p, all.len() as int) > 1 {
        Some(tie_count(all, p, all.len() as int) as u8)
    } else {
        None
    })
    &&& row.dns == p.dns
    &&& row.dnf == p.dnf
}

/// The leaderboard of one round: its players, ordered.
#[derive(Clone, Debug)]
pub struct LeaderboardState {
    pub where_to_start: LeaderboardStart,
    pub round: usize,
    pub players: Vec<Player>,
}

/// The sum of the round scores of the previous players with the given id.
fn previous_sum(prev: &Vec<Player>, id: &String) -> (r: isize)
    requires
        forall|i: int| 0 <= i < prev@.len() ==> #[trigger] round_fits(prev@[i].rs()),
        forall|k: int| 0 <= k <= prev@.len() ==> isize::MIN <= #[trigger] previous_total(prev@, id@, k) <= isize::MAX,
    ensures
        r == previous_total(prev@, id@, prev@.len() as int),
{
    let mut total: isize = 0;
    let mut i: usize = 0;
    while i < prev.len()
        invariant
            i <= prev@.len(),
            total == previous_total(prev@, id@, i as int),
            forall|i: int| 0 <= i < prev@.len() ==> #[trigger] round_fits(prev@[i].rs()),
            forall|k: int| 0 <= k <= prev@.len() ==> isize::MIN <= #[trigger] previous_total(prev@, id@, k) <= isize::MAX,
        decreases prev@.len() - i,
    {
        assert(isize::MIN <= previous_total(prev@, id@, i + 1) <= isize::MAX);
        if str_eq(prev[i].player_id.as_str(), id.as_str()) {
            assert(round_fits(prev@[i as int].rs()));
            total = total + prev[i].round_sum();
        }
        i = i + 1;
    }
    total
}

impl LeaderboardState {
    /// The leaderboard of round `round`: each player's round score from their
    /// results, their total with the rounds before, ordered for the board.
    pub fn new(round: usize, current_round_players: Vec<Player>, all_previous_rounds_players: Vec<Player>) -> (r: Self)
        requires
            forall|i: int| 0 <= i < current_round_players@.len() ==> #[trigger] can_count(current_round_players@[i], all_previous_rounds_players@),
            forall|i: int| 0 <= i < all_previous_rounds_players@.len() ==> #[trigger] round_fits(all_previous_rounds_players@[i].rs()),
        ensures
            r.round == round,
            r.where_to_start == LeaderboardStart::Latest,
            r.players@ == stable_sorted(current_round_players@.map_values(|p: Player| counted(p, all_previous_rounds_players@))),
            forall|i: int, j: int| 0 <= i < j < r.players@.len() && !is_out(#[trigger] r.players@[i]) && !is_out(#[trigger] r.players@[j])
                ==> r.players@[i].total_score <= r.players@[j].total_score,
            forall|i: int, j: int| 0 <= i < j < r.players@.len() && is_out(#[trigger] r.players@[i]) ==> is_out(#[trigger] r.players@[j]),
    {
        proof {
            lemma_board_order(current_round_players@.map_values(|p: Player| counted(p, all_previous_rounds_players@)));
        }
        let prev = all_previous_rounds_players;
        let mut cur = current_round_players;
        let ghost original = cur@;
        let n = cur.len();
        let mut done: Vec<Player> = Vec::new();
        let mut i: usize = 0;
        while i < n
            invariant
                i <= n,
                n == original.len(),
                cur@ =~= original.subrange(i as int, n as int),
                done@ =~= original.take(i as int).map_values(|p: Player| counted(p, prev@)),
                forall|j: int| 0 <= j < original.len() ==> #[trigger] can_count(original[j], prev@),
                forall|j: int| 0 <= j < prev@.len() ==> #[trigger] round_fits(prev@[j].rs()),
            decreases n - i,
        {
            let mut p = cur.remove(0);
            let ghost p0 = p;
            assert(p0 == original[i as int]);
            assert(can_count(p0, prev@));
            let total = previous_sum(&prev, &p.player_id);
            p.fix_round_score(None);
            assert(p.round_score == full_round(p0));
            p.total_score = total + p.round_score;
            assert(p == counted(p0, prev@));
            done.push(p);
            i = i + 1;
            proof {
                assert(original.take(i as int).map_values(|p: Player| counted(p, prev@))
                    =~= original.take(i - 1).map_values(|p: Player| counted(p, prev@)).push(counted(p0, prev@)));
            }
        }
        proof {
            assert(original.take(n as int) =~= original);
        }
        LeaderboardState { where_to_start: LeaderboardStart::Latest, round, players: stable_sort(done) }
    }
}

/// The position of the row with the given id on other rows, if any.
pub open spec fn rows_position(other: Option<Seq<LeaderboardPlayer>>, id: Seq<char>) -> Option<usize> {
    match other {
        Some(o) => match first_with_id(o, id, 0) {
            Some(k) => Some(o[k].position),
            None => None,
        },
        None => None,
    }
}

/// Whether `rows` are the rows of the players of a division of a state, with
/// the given positions on the other board.
pub open spec fn rows_of(
    rows: Seq<LeaderboardPlayer>,
    state: LeaderboardState,
    division: Division,
    prev: spec_fn(Seq<char>) -> Option<usize>,
) -> bool {
    let f = in_division(state.players@, division);
    &&& rows.len() == f.len()
    &&& forall|k: int| #![trigger rows[k]] 0 <= k < rows.len() ==> row_of(
        rows[k],
        f[k],
        positions(division_totals(state.players@, division))[k],
        (k + 1) as usize,
        min_round(state.players@),
        prev(f[k].player_id@),
        state.round,
        state.players@,
    )
}

proof fn lemma_rows_first(
    rows: Seq<LeaderboardPlayer>,
    state: LeaderboardState,
    division: Division,
    prev: spec_fn(Seq<char>) -> Option<usize>,
    id: Seq<char>,
    from: int,
)
    requires
        rows_of(rows, state, division, prev),
        0 <= from,
    ensures
        first_with_id(rows, id, from) == first_player_with_id(in_division(state.players@, division), id, from),
    decreases rows.len() - from,
{
    if from < rows.len() {
        let f = in_division(state.players@, division);
        assert(row_of(rows[from], f[from], positions(division_totals(state.players@, division))[from], (from + 1) as usize,
            min_round(state.players@), prev(f[from].player_id@), state.round, state.players@));
        lemma_rows_first(rows, state, division, prev, id, from + 1);
    }
}

/// The players of a division all have shortenable names when all players do.
proof fn lemma_division_names(state: LeaderboardState, division: Division)
    requires
        state_showable(state),
    ensures
        forall|i: int| 0 <= i < in_division(state.players@, division).len() ==> shortenable_name(
            #[trigger] in_division(state.players@, division)[i].name@,
        ),
{
    let pred = division_pred(division);
    assert forall|i: int| 0 <= i < in_division(state.players@, division).len() implies shortenable_name(
        #[trigger] in_division(state.players@, division)[i].name@,
    ) by {
        let f = in_division(state.players@, division);
        assert(f.contains(f[i]));
        state.players@.lemma_filter_contains_rev(pred, f[i]);
        assert(state.players@.contains(f[i]));
        let j = choose|j: int| 0 <= j < state.players@.len() && state.players@[j] == f[i];
        assert(shortenable_name(state.players@[j].name@));
    }
}

impl LeaderboardState {
    fn min_round_score(&self) -> (r: isize)
        ensures
            r == min_round(self.players@),
            forall|i: int| 0 <= i < self.players@.len() ==> r <= (#[trigger] self.players@[i]).round_score,
            self.players@.len() > 0 ==> exists|i: int| 0 <= i < self.players@.len() && (#[trigger] self.players@[i]).round_score == r,
    {
        proof {
            lemma_min_round_is_lowest(self.players@);
        }
        if self.players.len() == 0 {
            return 0;
        }
        let mut m = self.players[0].round_score;
        let mut i: usize = 1;
        while i < self.players.len()
            invariant
                1 <= i <= self.players@.len(),
                m == min_round(self.players@.take(i as int)),
            decreases self.players@.len() - i,
        {
            proof {
                assert(self.players@.take(i + 1).drop_last() =~= self.players@.take(i as int));
            }
            if self.players[i].round_score < m {
                m = self.players[i].round_score;
            }
            i = i + 1;
        }
        proof {
            assert(self.players@.take(self.players@.len() as int) =~= self.players@);
        }
        m
    }

    /// The players of a division, in order.
    fn division_players(&self, division: &Division) -> (r: Vec<&Player>)
        ensures
            r@.map_values(|p: &Player| *p) == in_division(self.players@, *division),
    {
        let ghost pred = division_pred(*division);
        let mut out: Vec<&Player> = Vec::new();
        let mut i: usize = 0;
        while i < self.players.len()
            invariant
                i <= self.players@.len(),
                pred == division_pred(*division),
                out@.map_values(|p: &Player| *p) =~= self.players@.take(i as int).filter(pred),
            decreases self.players@.len() - i,
        {
            proof {
                assert(self.players@.take(i + 1) =~= self.players@.take(i as int).push(self.players@[i as int]));
                self.players@.take(i as int).lemma_filter_push(self.players@[i as int], pred);
            }
            if str_eq(self.players[i].division.name.as_str(), division.name.as_str()) {
                out.push(&self.players[i]);
            }
            i = i + 1;
        }
        proof {
            assert(self.players@.take(self.players@.len() as int) =~= self.players@);
        }
        out
    }

    fn rows(&self, division: &Division, other_rows: Option<&Vec<LeaderboardPlayer>>) -> (r: Vec<LeaderboardPlayer>)
        ensures
            rows_of(r@, *self, *division, |id: Seq<char>| rows_position(match other_rows {
                Some(o) => Some(o@),
                None => None,
            }, id)),
    {
        let min_score = self.min_round_score();
        let filtered = self.division_players(division);
        let ghost f = in_division(self.players@, *division);
        proof {
            assert(totals_of(filtered@) =~= division_totals(self.players@, *division));
        }
        let with_pos = players_with_positions(filtered);
        let mut out: Vec<LeaderboardPlayer> = Vec::new();
        let mut k: usize = 0;
        while k < with_pos.len()
            invariant
                k <= with_pos@.len(),
                with_pos@.len() == f.len(),
                f == in_division(self.players@, *division),
                min_score == min_round(self.players@),
                forall|i: int| #![trigger with_pos@[i]] 0 <= i < with_pos@.len() ==> *with_pos@[i].1 == f[i]
                    && with_pos@[i].0 == positions(division_totals(self.players@, *division))[i],
                out@.len() == k,
                forall|j: int| #![trigger out@[j]] 0 <= j < k ==> row_of(
                    out@[j],
                    f[j],
                    positions(division_totals(self.players@, *division))[j],
                    (j + 1) as usize,
                    min_round(self.players@),
                    rows_position(match other_rows {
                        Some(o) => Some(o@),
                        None => None,
                    }, f[j].player_id@),
                    self.round,
                    self.players@,
                ),
            decreases with_pos@.len() - k,
        {
            let (pos, player) = with_pos[k];
            let row = LeaderboardPlayer::new(player, pos, k + 1, min_score, other_rows, self.round, self.players.as_slice());
            out.push(row);
            k = k + 1;
        }
        out
    }

    /// The rows of the players of a division, ranked, with their moves since
    /// the other board.
    pub fn leaderboard_players(&self, division: &Division, other: Option<&LeaderboardState>) -> (r: Vec<LeaderboardPlayer>)
        ensures
            rows_of(r@, *self, *division, prev_fn(opt_state(other), *division)),
    {
        match other {
            Some(o) => {
                let other_rows = o.rows(division, None);
                let r = self.rows(division, Some(&other_rows));
                proof {
                    assert forall|id: Seq<char>| rows_position(Some(other_rows@), id) == previous_position(Some(*o), *division, id) by {
                        assert(rows_of(other_rows@, *o, *division, |i: Seq<char>| None::<usize>)) by {
                            let f = in_division(o.players@, *division);
                            assert forall|k: int| 0 <= k < other_rows@.len() implies rows_position(None, f[k].player_id@) == None::<usize> by {}
                        }
                        lemma_rows_first(other_rows@, *o, *division, |i: Seq<char>| None::<usize>, id, 0);
                        lemma_first_with_id(other_rows@, id, 0);
                    }
                }
                r
            },
            None => self.rows(division, None),
        }
    }
}

/// The calls of the row of player `p` (see `row_of`), shown in row `index`.
pub open spec fn player_row_calls(
    p: Player,
    pos: usize,
    index: usize,
    min: isize,
    prev_pos: Option<usize>,
    round: usize,
    all: Seq<Player>,
) -> Seq<(VMixFunction, Option<LeaderBoardProperty>, Option<Seq<char>>)> {
    row_calls(LeaderboardPlayer {
        id: p.player_id,
        index,
        position: pos,
        movement: match prev_pos {
            Some(o) => LeaderboardMovement::spec_between(pos, o),
            None => LeaderboardMovement::Same,
        },
        hot_round: p.round_score == min && round != 0,
        name: p.name,
        round_score: p.round_score,
        total_score: p.total_score,
        thru: done_results(p.rs()).len() as u8,
        tied: if tie_count(all, p, all.len() as int) > 1 {
            Some(tie_count(all, p, all.len() as int) as u8)
        } else {
            None
        },
        dns: p.dns,
        dnf: p.dnf,
    })
}

/// The calls of rows `start` to `start + n` of a division of a state, shown
/// from the first row of the title on.
pub open spec fn board_calls(
    state: LeaderboardState,
    division: Division,
    prev: spec_fn(Seq<char>) -> Option<usize>,
    start: int,
    n: int,
) -> Seq<(VMixFunction, Option<LeaderBoardProperty>, Option<Seq<char>>)>
    decreases n,
{
    if n <= 0 {
        seq![]
    } else {
        let k = start + n - 1;
        let f = in_division(state.players@, division);
        board_calls(state, division, prev, start, n - 1) + player_row_calls(
            f[k],
            positions(division_totals(state.players@, division))[k],
            (k + 1 - start) as usize,
            min_round(state.players@),
            prev(f[k].player_id@),
            state.round,
            state.players@,
        )
    }
}

/// How many rows a page of the big leaderboard shows from `start` on.
pub open spec fn page_len(len: int, start: int) -> int {
    if start >= len {
        0
    } else if start + 10 <= len {
        10
    } else {
        len - start
    }
}

/// The call that names the division and round on the big leaderboard.
pub open spec fn checkin_call(division: Division, round: usize) -> (VMixFunction, Option<LeaderBoardProperty>, Option<Seq<char>>) {
    (VMixFunction::SetText, Some(LeaderBoardProperty::CheckinText), Some(division.short_name@ + " | Round "@ + nat_to_dec((round + 1) as nat)))
}

/// The top-six calls of big-leaderboard calls: fields without a counterpart
/// are left out, and names are shortened.
pub open spec fn top6_calls(s: Seq<(VMixFunction, Option<LeaderBoardProperty>, Option<Seq<char>>)>) -> Seq<(VMixFunction, Option<LeaderboardTop6>, Option<Seq<char>>)>
    decreases s.len(),
{
    if s.len() == 0 {
        seq![]
    } else {
        let (f, i, v) = s.last();
        top6_calls(s.drop_last()) + match i {
            Some(p) => match top6_of(p) {
                Some(t) => seq![(f, Some(t), match p {
                    LeaderBoardProperty::Name(_) => Some(short_name(v->0)),
                    _ => v,
                })],
                None => seq![],
            },
            None => seq![],
        }
    }
}

/// The top-six calls that show the latest holes of a row, column by column.
pub open spec fn top6_hole_calls(latest: Seq<Option<HoleResult>>, pos: usize) -> Seq<(VMixFunction, Option<LeaderboardTop6>, Option<Seq<char>>)>
    decreases latest.len(),
{
    if latest.len() == 0 {
        seq![]
    } else {
        let hole = latest.len() as usize;
        top6_hole_calls(latest.drop_last(), pos) + match latest.last() {
            Some(h) => seq![
                (VMixFunction::SetText, Some(LeaderboardTop6::LastScore { pos, hole }), Some(score_text(h.relative()))),
                (VMixFunction::SetColor, Some(LeaderboardTop6::LastScoreColour { pos, hole }), Some("#"@ + h.readable().colour())),
            ],
            None => seq![
                (VMixFunction::SetText, Some(LeaderboardTop6::LastScore { pos, hole }), Some(Seq::<char>::empty())),
                (VMixFunction::SetColor, Some(LeaderboardTop6::LastScoreColour { pos, hole }), Some("#"@ + DEFAULT_FOREGROUND_COL_ALPHA@)),
            ],
        }
    }
}

/// Whether a player's latest holes can be shown.
pub open spec fn holes_showable(p: Player) -> bool {
    &&& p.results.keys_fit()
    &&& forall|i: int| 0 <= i < p.results.completion_order().len() ==> #[trigger] p.results.completion_order()[i].fits()
}

/// The top-six calls that show the latest five holes of the first `n` rows of
/// a division: for each row, those of the first player of the board with its id.
pub open spec fn little_calls(state: LeaderboardState, division: Division, n: int) -> Seq<(VMixFunction, Option<LeaderboardTop6>, Option<Seq<char>>)>
    decreases n,
{
    if n <= 0 {
        seq![]
    } else {
        let f = in_division(state.players@, division);
        let id = f[n - 1].player_id@;
        little_calls(state, division, n - 1) + match first_player_with_id(state.players@, id, 0) {
            Some(j) => top6_hole_calls(latest_holes(state.players@[j].results, 5), n as usize),
            None => seq![],
        }
    }
}

proof fn lemma_first_player_with_id(s: Seq<Player>, id: Seq<char>, from: int)
    requires
        0 <= from,
    ensures
        first_player_with_id(s, id, from) matches Some(k) ==> from <= k < s.len() && s[k].player_id@ == id,
    decreases s.len() - from,
{
    if from < s.len() && s[from].player_id@ != id {
        lemma_first_player_with_id(s, id, from + 1);
    }
}

impl LeaderboardState {
    fn find_player(&self, id: &String) -> (r: Option<usize>)
        ensures
            match first_player_with_id(self.players@, id@, 0) {
                Some(k) => r matches Some(i) && i as int == k,
                None => r is None,
            },
    {
        proof {
            lemma_first_player_with_id(self.players@, id@, 0);
        }
        let mut i: usize = 0;
        while i < self.players.len()
            invariant
                i <= self.players@.len(),
                first_player_with_id(self.players@, id@, 0) == first_player_with_id(self.players@, id@, i as int),
            decreases self.players@.len() - i,
        {
            if str_eq(self.players[i].player_id.as_str(), id.as_str()) {
                return Some(i);
            }
            i = i + 1;
        }
        None
    }

    /// The calls of page `skip` (ten rows) of the big leaderboard of a
    /// division, and the name of the division and round.
    pub fn big_leaderboard_funcs(&self, division: &Division, other: Option<&LeaderboardState>, skip: usize) -> (r: Vec<VMixInterfacer<LeaderBoardProperty>>)
        requires
            skip * 10 <= usize::MAX,
            self.round < usize::MAX,
        ensures
            ({
                let prev = prev_fn(opt_state(other), *division);
                let len = in_division(self.players@, *division).len() as int;
                parts_of(r@) == board_calls(*self, *division, prev, skip * 10, page_len(len, skip * 10))
                    + seq![checkin_call(*division, self.round)]
            }),
    {
        let rows = self.leaderboard_players(division, other);
        let ghost prev = prev_fn(opt_state(other), *division);
        let ghost f = in_division(self.players@, *division);
        let start = skip * 10;
        let len = rows.len();
        let end = if start >= len { start } else if len - start >= 10 { start + 10 } else { len };
        let mut out: Vec<VMixInterfacer<LeaderBoardProperty>> = Vec::new();
        let mut k: usize = start;
        while k < end
            invariant
                start <= k <= end,
                end - start == page_len(len as int, start as int),
                len == rows@.len(),
                end <= len || start >= len,
                rows_of(rows@, *self, *division, prev),
                f == in_division(self.players@, *division),
                parts_of(out@) == board_calls(*self, *division, prev, start as int, k - start),
            decreases end - k,
        {
            let row = &rows[k];
            let shifted = LeaderboardPlayer {
                id: row.id.clone(),
                index: row.index - start,
                position: row.position,
                movement: row.movement,
                hot_round: row.hot_round,
                name: row.name.clone(),
                round_score: row.round_score,
                total_score: row.total_score,
                thru: row.thru,
                tied: row.tied,
                dns: row.dns,
                dnf: row.dnf,
            };
            let mut calls = shifted.combine();
            let ghost before = out@;
            proof {
                assert(row_of(rows@[k as int], f[k as int], positions(division_totals(self.players@, *division))[k as int],
                    (k + 1) as usize, min_round(self.players@), prev(f[k as int].player_id@), self.round, self.players@));
                assert(row_calls(shifted) =~= player_row_calls(f[k as int], positions(division_totals(self.players@, *division))[k as int],
                    (k + 1 - start) as usize, min_round(self.players@), prev(f[k as int].player_id@), self.round, self.players@));
            }
            out.append(&mut calls);
            proof {
                assert(parts_of(out@) =~= parts_of(before) + row_calls(shifted));
            }
            k = k + 1;
        }
        let mut text = division.short_name.clone();
        proof {
            assert(text@ == division.short_name@);
        }
        text.append(" | Round ");
        text.append(crate::text::succ_to_string(self.round).as_str());
        let ghost before = out@;
        out.push(VMixInterfacer::set_text(text, LeaderBoardProperty::CheckinText));
        proof {
            assert(parts_of(out@) =~= parts_of(before) + seq![checkin_call(*division, self.round)]);
        }
        out
    }
}

/// Whether each name call of a batch carries a name that can be shortened.
pub open spec fn names_shortenable(batch: Seq<VMixInterfacer<LeaderBoardProperty>>) -> bool {
    parts_names_ok(parts_of(batch))
}

/// Whether each name call carries a name that can be shortened.
pub open spec fn parts_names_ok(ps: Seq<(VMixFunction, Option<LeaderBoardProperty>, Option<Seq<char>>)>) -> bool {
    forall|i: int| 0 <= i < ps.len() ==> ((#[trigger] ps[i]).1 matches Some(LeaderBoardProperty::Name(_)) ==> (
        ps[i].2 is Some && shortenable_name(ps[i].2->0)))
}

proof fn lemma_names_ok_concat(a: Seq<(VMixFunction, Option<LeaderBoardProperty>, Option<Seq<char>>)>, b: Seq<(VMixFunction, Option<LeaderBoardProperty>, Option<Seq<char>>)>)
    requires
        parts_names_ok(a),
        parts_names_ok(b),
    ensures
        parts_names_ok(a + b),
{
    assert forall|i: int| 0 <= i < (a + b).len() implies ((#[trigger] (a + b)[i]).1 matches Some(LeaderBoardProperty::Name(_)) ==> (
        (a + b)[i].2 is Some && shortenable_name((a + b)[i].2->0))) by {
        if i < a.len() {
            assert((a + b)[i] == a[i]);
        } else {
            assert((a + b)[i] == b[i - a.len()]);
        }
    }
}

/// The calls of the rows of a page carry shortenable names when the players do.
proof fn lemma_board_names(
    state: LeaderboardState,
    division: Division,
    prev: spec_fn(Seq<char>) -> Option<usize>,
    start: int,
    n: int,
)
    requires
        0 <= start,
        start + n <= in_division(state.players@, division).len(),
        forall|i: int| 0 <= i < in_division(state.players@, division).len() ==> shortenable_name(
            #[trigger] in_division(state.players@, division)[i].name@,
        ),
    ensures
        parts_names_ok(board_calls(state, division, prev, start, n)),
    decreases n,
{
    if n > 0 {
        lemma_board_names(state, division, prev, start, n - 1);
        let k = start + n - 1;
        let f = in_division(state.players@, division);
        let rc = player_row_calls(
            f[k],
            positions(division_totals(state.players@, division))[k],
            (k + 1 - start) as usize,
            min_round(state.players@),
            prev(f[k].player_id@),
            state.round,
            state.players@,
        );
        assert(shortenable_name(f[k].name@));
        assert(parts_names_ok(rc));
        lemma_names_ok_concat(board_calls(state, division, prev, start, n - 1), rc);
    }
}

/// The number of rows the top-six title shows.
pub open spec fn top_rows(len: int) -> int {
    if len < 6 { len } else { 6 }
}

impl LeaderboardState {
    fn top6_batch(first_batch: Vec<VMixInterfacer<LeaderBoardProperty>>) -> (r: Vec<VMixInterfacer<LeaderboardTop6>>)
        requires
            names_shortenable(first_batch@),
        ensures
            parts_of(r@) == top6_calls(parts_of(first_batch@)),
    {
        let mut batch = first_batch;
        let ghost original = batch@;
        proof {
            assert forall|i: int| 0 <= i < original.len() implies ((#[trigger] original[i]).input matches Some(LeaderBoardProperty::Name(_)) ==> (
                original[i].value is Some && shortenable_name(original[i].value->0@))) by {
                assert(parts_of(original)[i] == original[i].parts());
            }
        }
        let n = batch.len();
        let mut out: Vec<VMixInterfacer<LeaderboardTop6>> = Vec::new();
        let mut i: usize = 0;
        while i < n
            invariant
                i <= n,
                n == original.len(),
                forall|i: int| 0 <= i < original.len() ==> ((#[trigger] original[i]).input matches Some(LeaderBoardProperty::Name(_)) ==> (
                    original[i].value is Some && shortenable_name(original[i].value->0@))),
                batch@ =~= original.subrange(i as int, n as int),
                parts_of(out@) == top6_calls(parts_of(original.take(i as int))),
            decreases n - i,
        {
            let call = batch.remove(0);
            proof {
                assert(call == original[i as int]);
                assert(parts_of(original.take(i + 1)).drop_last() =~= parts_of(original.take(i as int)));
                assert(parts_of(original.take(i + 1)).last() == call.parts());
            }
            let ghost before = out@;
            match call.to_top_6() {
                Some(t) => {
                    out.push(t);
                },
                None => {},
            }
            proof {
                assert(parts_of(out@) =~= top6_calls(parts_of(original.take(i + 1))));
            }
            i = i + 1;
        }
        proof {
            assert(original.take(n as int) =~= original);
        }
        out
    }

    /// The calls of the top-six title: the top-six counterparts of the first
    /// batch of big-leaderboard calls, and the latest five holes of each of the
    /// first six rows.
    pub fn update_little_leaderboard(
        &self,
        division: &Division,
        first_batch: Vec<VMixInterfacer<LeaderBoardProperty>>,
        other: Option<&LeaderboardState>,
    ) -> (r: Vec<VMixInterfacer<LeaderboardTop6>>)
        requires
            names_shortenable(first_batch@),
            forall|i: int| 0 <= i < self.players@.len() ==> #[trigger] holes_showable(self.players@[i]),
        ensures
            parts_of(r@) == top6_calls(parts_of(first_batch@))
                + little_calls(*self, *division, top_rows(in_division(self.players@, *division).len() as int)),
    {
        let rows = self.leaderboard_players(division, other);
        let ghost prev = prev_fn(opt_state(other), *division);
        let ghost f = in_division(self.players@, *division);
        let mut out = Self::top6_batch(first_batch);
        let ghost head = parts_of(out@);
        let n = if rows.len() < 6 { rows.len() } else { 6 };
        let mut k: usize = 0;
        while k < n
            invariant
                k <= n,
                n == top_rows(rows@.len() as int),
                rows_of(rows@, *self, *division, prev),
                f == in_division(self.players@, *division),
                forall|i: int| 0 <= i < self.players@.len() ==> #[trigger] holes_showable(self.players@[i]),
                parts_of(out@) == head + little_calls(*self, *division, k as int),
            decreases n - k,
        {
            proof {
                assert(row_of(rows@[k as int], f[k as int], positions(division_totals(self.players@, *division))[k as int],
                    (k + 1) as usize, min_round(self.players@), prev(f[k as int].player_id@), self.round, self.players@));
            }
            let index = rows[k].index;
            let ghost before = out@;
            match self.find_player(&rows[k].id) {
                Some(j) => {
                    proof {
                        lemma_first_player_with_id(self.players@, rows@[k as int].id@, 0);
                        assert(holes_showable(self.players@[j as int]));
                    }
                    let latest = self.players[j].results.the_latest_6_holes(5);
                    proof {
                        assert(latest@ =~= latest_holes(self.players@[j as int].results, 5));
                    }
                    let mut c: usize = 0;
                    while c < 5
                        invariant
                            c <= 5,
                            latest@ == latest_holes(self.players@[j as int].results, 5),
                            latest@.len() == 5,
                            holes_showable(self.players@[j as int]),
                            parts_of(out@) == parts_of(before) + top6_hole_calls(latest@.take(c as int), index),
                        decreases 5 - c,
                    {
                        let ghost inner = out@;
                        proof {
                            assert(latest@.take(c + 1).drop_last() =~= latest@.take(c as int));
                            assert(latest@.take(c + 1).last() == latest@[c as int]);
                        }
                        match latest[c] {
                            Some(res) => {
                                proof {
                                    let order = self.players@[j as int].results.completion_order();
                                    let kk = if 5 < order.len() { 5 } else { order.len() as int };
                                    assert(res == order[order.len() - kk + c]);
                                }
                                let mut calls = res.to_leaderboard_top_6(index, c + 1);
                                let ghost added = parts_of(calls@);
                                out.append(&mut calls);
                                proof {
                                    assert(parts_of(out@) =~= parts_of(inner) + added);
                                }
                            },
                            None => {
                                let mut calls = HoleResult::hide_hole_top_6(index, c + 1);
                                let ghost added = parts_of(calls@);
                                out.append(&mut calls);
                                proof {
                                    assert(parts_of(out@) =~= parts_of(inner) + added);
                                }
                            },
                        }
                        proof {
                            assert(parts_of(out@) =~= parts_of(before) + top6_hole_calls(latest@.take(c + 1), index));
                        }
                        c = c + 1;
                    }
                    proof {
                        assert(latest@.take(5) =~= latest@);
                        assert(parts_of(out@) =~= head + little_calls(*self, *division, k + 1));
                    }
                },
                None => {
                    proof {
                        assert(parts_of(out@) =~= head + little_calls(*self, *division, k + 1));
                    }
                },
            }
            k = k + 1;
        }
        out
    }
}

/// The index of the first state of round `round`.
pub open spec fn first_state(states: Seq<LeaderboardState>, round: usize, from: int) -> Option<int>
    decreases states.len() - from,
{
    if from < 0 || from >= states.len() {
        None
    } else if states[from].round == round {
        Some(from)
    } else {
        first_state(states, round, from + 1)
    }
}

proof fn lemma_first_state(states: Seq<LeaderboardState>, round: usize, from: int)
    requires
        0 <= from,
    ensures
        match first_state(states, round, from) {
            Some(k) => from <= k < states.len() && states[k].round == round,
            None => forall|j: int| from <= j < states.len() ==> states[j].round != round,
        },
    decreases states.len() - from,
{
    if from < states.len() && states[from].round != round {
        lemma_first_state(states, round, from + 1);
    }
}

/// Whether every player of a state can be shown on the top-six title.
pub open spec fn state_showable(state: LeaderboardState) -> bool {
    &&& forall|i: int| 0 <= i < state.players@.len() ==> #[trigger] holes_showable(state.players@[i])
    &&& forall|i: int| 0 <= i < state.players@.len() ==> shortenable_name(#[trigger] state.players@[i].name@)
}

/// The calls of the small leaderboard, for the title that shows it.
pub enum LittleLeaderboard {
    Top6(Vec<VMixInterfacer<LeaderboardTop6>>),
    Featured(Vec<VMixInterfacer<FeaturedLeaderboard>>),
    Cycled(Vec<VMixInterfacer<CycledLeaderboard>>),
}

/// The calls that show the leaderboards: the big one, then the small one.
pub struct LeaderboardCalls {
    pub big: Vec<VMixInterfacer<LeaderBoardProperty>>,
    pub little: LittleLeaderboard,
}

/// The leaderboards of the rounds so far.
#[derive(Clone, Debug)]
pub struct Leaderboard {
    pub states: Vec<LeaderboardState>,
    pub skip: usize,
    pub cycle: bool,
    pub broadcast_type: BroadcastType,
}

impl Default for Leaderboard {
    fn default() -> (r: Self)
        ensures
            r.states@.len() == 0,
            r.skip == 0,
            !r.cycle,
            r.broadcast_type == BroadcastType::Live,
    {
        Leaderboard { states: Vec::new(), skip: 0, cycle: false, broadcast_type: BroadcastType::Live }
    }
}

impl Leaderboard {
    /// The index of the state shown for round `round`: that of the round, else
    /// the first one.
    pub open spec fn current_index(self, round: usize) -> Option<int> {
        match first_state(self.states@, round, 0) {
            Some(k) => Some(k),
            None => if self.states@.len() > 0 { Some(0) } else { None },
        }
    }

    /// The index of the state the board of round `round` is compared with.
    pub open spec fn previous_index(self, round: usize) -> Option<int> {
        if self.states@.len() <= 1 || round < 1 {
            None
        } else {
            let k = match self.broadcast_type {
                BroadcastType::PostLive => round - 2,
                BroadcastType::Live => round - 1,
            };
            if 0 <= k < self.states@.len() { Some(k) } else { None }
        }
    }

    pub open spec fn state_at(self, k: Option<int>) -> Option<LeaderboardState> {
        match k {
            Some(i) => Some(self.states@[i]),
            None => None,
        }
    }

    fn find_state_by_round(&self, round: usize) -> (r: Option<&LeaderboardState>)
        ensures
            match first_state(self.states@, round, 0) {
                Some(k) => r == Some(&self.states@[k]),
                None => r is None,
            },
    {
        proof {
            lemma_first_state(self.states@, round, 0);
        }
        let mut i: usize = 0;
        while i < self.states.len()
            invariant
                i <= self.states@.len(),
                first_state(self.states@, round, 0) == first_state(self.states@, round, i as int),
            decreases self.states@.len() - i,
        {
            if self.states[i].round == round {
                return Some(&self.states[i]);
            }
            i = i + 1;
        }
        None
    }

    /// The state shown for round `round`: that of the round, else the first.
    pub fn current_state(&self, round: usize) -> (r: Option<&LeaderboardState>)
        ensures
            match self.current_index(round) {
                Some(k) => r == Some(&self.states@[k]),
                None => r is None,
            },
    {
        proof {
            lemma_first_state(self.states@, round, 0);
        }
        match self.find_state_by_round(round) {
            Some(s) => Some(s),
            None => if self.states.len() > 0 { Some(&self.states[0]) } else { None },
        }
    }

    /// The state the board of round `round` is compared with: the round before
    /// (two before after the event), where there is one.
    pub fn previous_state(&self, round: usize) -> (r: Option<&LeaderboardState>)
        ensures
            match self.previous_index(round) {
                Some(k) => r == Some(&self.states@[k]),
                None => r is None,
            },
    {
        if self.states.len() <= 1 || round < 1 {
            return None;
        }
        let k = match self.broadcast_type {
            BroadcastType::PostLive => {
                if round < 2 {
                    return None;
                }
                round - 2
            },
            BroadcastType::Live => round - 1,
        };
        if k < self.states.len() { Some(&self.states[k]) } else { None }
    }

    /// Replaces the state of the same round, or adds the state.
    pub fn update_players(&mut self, new_state: LeaderboardState)
        ensures
            final(self).skip == old(self).skip,
            final(self).cycle == old(self).cycle,
            final(self).broadcast_type == old(self).broadcast_type,
            match first_state(old(self).states@, new_state.round, 0) {
                Some(k) => final(self).states@ == old(self).states@.update(k, new_state),
                None => final(self).states@ == old(self).states@.push(new_state),
            },
    {
        proof {
            lemma_first_state(self.states@, new_state.round, 0);
        }
        let mut i: usize = 0;
        while i < self.states.len()
            invariant
                i <= self.states@.len(),
                self.states@ == old(self).states@,
                self.skip == old(self).skip,
                self.cycle == old(self).cycle,
                self.broadcast_type == old(self).broadcast_type,
                first_state(self.states@, new_state.round, 0) == first_state(self.states@, new_state.round, i as int),
            decreases self.states@.len() - i,
        {
            if self.states[i].round == new_state.round {
                self.states.set(i, new_state);
                return;
            }
            i = i + 1;
        }
        self.states.push(new_state);
    }

    /// Adds the state of a round: where the state shown last is of the same
    /// round, it is replaced.
    pub fn add_state(&mut self, state: LeaderboardState)
        ensures
            final(self).skip == old(self).skip,
            final(self).cycle == old(self).cycle,
            final(self).broadcast_type == old(self).broadcast_type,
            ({
                let last = if old(self).states@.len() > 0 { (old(self).states@.len() - 1) as usize } else { 0usize };
                let replaced = match old(self).current_index(last) {
                    Some(k) => old(self).states@[k].round == state.round,
                    None => false,
                };
                final(self).states@ == if replaced {
                    old(self).states@.drop_last().push(state)
                } else {
                    old(self).states@.push(state)
                }
            }),
    {
        let last = if self.states.len() > 0 { self.states.len() - 1 } else { 0 };
        let replace = match self.current_state(last) {
            Some(current) => current.round == state.round,
            None => false,
        };
        if replace {
            let _ = self.states.pop();
        }
        self.states.push(state);
    }

    /// The row of a player on the latest board of their division.
    pub fn get_lb_player(&self, player: &Player) -> (r: Option<LeaderboardPlayer>)
        requires
            self.states@.len() > 0,
        ensures
            ({
                let last = (self.states@.len() - 1) as usize;
                let cur = self.states@[self.current_index(last)->0];
                let f = in_division(cur.players@, player.division);
                match first_player_with_id(f, player.player_id@, 0) {
                    Some(k) => r matches Some(row) && row_of(
                        row,
                        f[k],
                        positions(division_totals(cur.players@, player.division))[k],
                        (k + 1) as usize,
                        min_round(cur.players@),
                        previous_position(self.state_at(self.previous_index(last)), player.division, f[k].player_id@),
                        cur.round,
                        cur.players@,
                    ),
                    None => r is None,
                }
            }),
    {
        let last = self.states.len() - 1;
        proof {
            lemma_first_state(self.states@, last, 0);
        }
        let current = self.current_state(last).unwrap();
        let previous = self.previous_state(last);
        let mut rows = current.leaderboard_players(&player.division, previous);
        let ghost prev = prev_fn(opt_state(previous), player.division);
        let ghost f = in_division(current.players@, player.division);
        proof {
            assert(opt_state(previous) == self.state_at(self.previous_index(last)));
            assert(*current == self.states@[self.current_index(last)->0]);
            lemma_rows_first(rows@, *current, player.division, prev, player.player_id@, 0);
            lemma_first_with_id(rows@, player.player_id@, 0);
        }
        let mut i: usize = 0;
        while i < rows.len()
            invariant
                i <= rows@.len(),
                rows_of(rows@, *current, player.division, prev),
                first_with_id(rows@, player.player_id@, 0) == first_with_id(rows@, player.player_id@, i as int),
                first_with_id(rows@, player.player_id@, 0) == first_player_with_id(f, player.player_id@, 0),
                f == in_division(current.players@, player.division),
                opt_state(previous) == self.state_at(self.previous_index(last)),
                *current == self.states@[self.current_index(last)->0],
                prev == prev_fn(opt_state(previous), player.division),
                last == self.states@.len() - 1,
            decreases rows@.len() - i,
        {
            if str_eq(rows[i].id.as_str(), player.player_id.as_str()) {
                proof {
                    let ff = in_division(current.players@, player.division);
                    assert(row_of(rows@[i as int], ff[i as int], positions(division_totals(current.players@, player.division))[i as int],
                        (i + 1) as usize, min_round(current.players@), prev(ff[i as int].player_id@), current.round, current.players@));
                }
                proof {
                    assert(first_with_id(rows@, player.player_id@, i as int) == Some(i as int));
                }
                return Some(rows.remove(i));
            }
            i = i + 1;
        }
        proof {
            assert(first_with_id(rows@, player.player_id@, rows@.len() as int) is None);
        }
        None
    }

    /// The player with the same id in the state of their round.
    pub fn find_player_in_current_state(&self, player: &Player) -> (r: Option<&Player>)
        ensures
            match first_state(self.states@, player.round_ind, 0) {
                Some(k) => match first_player_with_id(self.states@[k].players@, player.player_id@, 0) {
                    Some(j) => r == Some(&self.states@[k].players@[j]),
                    None => r is None,
                },
                None => r is None,
            },
    {
        match self.find_state_by_round(player.round_ind) {
            Some(state) => {
                match state.find_player(&player.player_id) {
                    Some(j) => {
                        proof {
                            lemma_first_player_with_id(state.players@, player.player_id@, 0);
                        }
                        Some(&state.players[j])
                    },
                    None => None,
                }
            },
            None => None,
        }
    }

    /// The rows of a division on the board shown for round `round`.
    pub fn all_players_in_div(&self, division: &Division, round: usize) -> (r: Vec<LeaderboardPlayer>)
        requires
            self.states@.len() > 0,
        ensures
            rows_of(r@, self.states@[self.current_index(round)->0], *division, prev_fn(self.state_at(self.previous_index(round)), *division)),
    {
        proof {
            lemma_first_state(self.states@, round, 0);
        }
        let current = self.current_state(round).unwrap();
        let previous = self.previous_state(round);
        proof {
            assert(opt_state(previous) == self.state_at(self.previous_index(round)));
        }
        current.leaderboard_players(division, previous)
    }

    /// The calls that show the small leaderboard of a division on the cycling
    /// title, from the latest board (compared with the one before it).
    pub fn update_little_lb(&self, div: &Division) -> (r: LittleLeaderboard)
        requires
            self.states@.len() > 0,
            forall|i: int| 0 <= i < self.states@.len() ==> #[trigger] state_showable(self.states@[i]),
            forall|i: int| 0 <= i < self.states@.len() ==> #[trigger] self.states@[i].round < usize::MAX,
        ensures
            ({
                let last = (self.states@.len() - 1) as usize;
                let cur = self.states@[self.current_index(last)->0];
                let prev = if self.states@.len() >= 2 {
                    self.state_at(self.previous_index((self.states@.len() - 2) as usize))
                } else {
                    None
                };
                let calls = little_board(cur, *div, prev);
                match r {
                    LittleLeaderboard::Cycled(v) => self.cycle && parts_of(v@) == cycled_parts(calls),
                    LittleLeaderboard::Top6(v) => !self.cycle && parts_of(v@) == calls,
                    LittleLeaderboard::Featured(_) => false,
                }
            }),
    {
        let last = self.states.len() - 1;
        proof {
            lemma_first_state(self.states@, last, 0);
        }
        let current = self.current_state(last).unwrap();
        let previous = if self.states.len() >= 2 { self.previous_state(self.states.len() - 2) } else { None };
        proof {
            let prev = if self.states@.len() >= 2 {
                self.state_at(self.previous_index((self.states@.len() - 2) as usize))
            } else {
                None
            };
            assert(opt_state(previous) == prev);
        }
        let second = current.little_leaderboard_calls(div, previous);
        if self.cycle {
            LittleLeaderboard::Cycled(into_cycled(second))
        } else {
            LittleLeaderboard::Top6(second)
        }
    }

    /// The calls that show the leaderboard of a division for round `round`:
    /// page `skip` of the big board, and the small board (on the featured
    /// title, the cycling title, or its own).
    pub fn send_to_vmix(&self, division: &Division, round: usize, featured: bool) -> (r: LeaderboardCalls)
        requires
            self.states@.len() > 0,
            forall|i: int| 0 <= i < self.states@.len() ==> #[trigger] state_showable(self.states@[i]),
            forall|i: int| 0 <= i < self.states@.len() ==> #[trigger] self.states@[i].round < usize::MAX,
            self.skip * 10 <= usize::MAX,
        ensures
            ({
                let cur = self.states@[self.current_index(round)->0];
                let prev = self.state_at(self.previous_index(round));
                let prevf = prev_fn(prev, *division);
                let len = in_division(cur.players@, *division).len() as int;
                let calls = little_board(cur, *division, prev);
                &&& parts_of(r.big@) == board_calls(cur, *division, prevf, self.skip * 10, page_len(len, self.skip * 10))
                    + seq![checkin_call(*division, cur.round)]
                &&& match r.little {
                    LittleLeaderboard::Featured(v) => featured && parts_of(v@) == featured_parts(calls),
                    LittleLeaderboard::Cycled(v) => !featured && self.cycle && parts_of(v@) == cycled_parts(calls),
                    LittleLeaderboard::Top6(v) => !featured && !self.cycle && parts_of(v@) == calls,
                }
            }),
    {
        proof {
            lemma_first_state(self.states@, round, 0);
        }
        let current = self.current_state(round).unwrap();
        let previous = self.previous_state(round);
        proof {
            assert(opt_state(previous) == self.state_at(self.previous_index(round)));
        }
        current.send_to_vmix(self.cycle, division, previous, self.skip, featured)
    }
}

/// The calls of the small leaderboard of a division of a state: the top-six
/// counterparts of the first page of the big board, and the latest holes of
/// the first six rows.
pub open spec fn little_board(state: LeaderboardState, division: Division, prev: Option<LeaderboardState>) -> Seq<(VMixFunction, Option<LeaderboardTop6>, Option<Seq<char>>)> {
    let prevf = prev_fn(prev, division);
    let len = in_division(state.players@, division).len() as int;
    top6_calls(board_calls(state, division, prevf, 0, page_len(len, 0)) + seq![checkin_call(division, state.round)])
        + little_calls(state, division, top_rows(len))
}

/// The same calls on the cycling title.
pub open spec fn cycled_parts(s: Seq<(VMixFunction, Option<LeaderboardTop6>, Option<Seq<char>>)>) -> Seq<(VMixFunction, Option<CycledLeaderboard>, Option<Seq<char>>)> {
    s.map_values(|c: (VMixFunction, Option<LeaderboardTop6>, Option<Seq<char>>)| (c.0, match c.1 {
        Some(t) => Some(CycledLeaderboard(t)),
        None => None,
    }, c.2))
}

/// The same calls on the featured-group title.
pub open spec fn featured_parts(s: Seq<(VMixFunction, Option<LeaderboardTop6>, Option<Seq<char>>)>) -> Seq<(VMixFunction, Option<FeaturedLeaderboard>, Option<Seq<char>>)> {
    s.map_values(|c: (VMixFunction, Option<LeaderboardTop6>, Option<Seq<char>>)| (c.0, match c.1 {
        Some(t) => Some(FeaturedLeaderboard(t)),
        None => None,
    }, c.2))
}

/// Moves top-six calls to the cycling title.
pub fn into_cycled(v: Vec<VMixInterfacer<LeaderboardTop6>>) -> (r: Vec<VMixInterfacer<CycledLeaderboard>>)
    ensures
        parts_of(r@) == cycled_parts(parts_of(v@)),
{
    let mut v = v;
    let ghost original = v@;
    let n = v.len();
    let mut out: Vec<VMixInterfacer<CycledLeaderboard>> = Vec::new();
    let mut i: usize = 0;
    while i < n
        invariant
            i <= n,
            n == original.len(),
            v@ =~= original.subrange(i as int, n as int),
            parts_of(out@) =~= cycled_parts(parts_of(original.take(i as int))),
        decreases n - i,
    {
        let c = v.remove(0);
        assert(c == original[i as int]);
        proof {
            assert(original.take(i + 1) =~= original.take(i as int).push(c));
            assert(parts_of(original.take(i + 1)) =~= parts_of(original.take(i as int)).push(c.parts()));
        }
        let ghost before = out@;
        let d = c.into_cycled_leaderboard();
        out.push(d);
        proof {
            assert(parts_of(out@) =~= parts_of(before).push(d.parts()));
            assert(cycled_parts(parts_of(original.take(i + 1))) =~= cycled_parts(parts_of(original.take(i as int))).push(d.parts()));
        }
        i = i + 1;
    }
    proof {
        assert(original.take(n as int) =~= original);
    }
    out
}

/// Moves top-six calls to the featured-group title.
pub fn into_featured(v: Vec<VMixInterfacer<LeaderboardTop6>>) -> (r: Vec<VMixInterfacer<FeaturedLeaderboard>>)
    ensures
        parts_of(r@) == featured_parts(parts_of(v@)),
{
    let mut v = v;
    let ghost original = v@;
    let n = v.len();
    let mut out: Vec<VMixInterfacer<FeaturedLeaderboard>> = Vec::new();
    let mut i: usize = 0;
    while i < n
        invariant
            i <= n,
            n == original.len(),
            v@ =~= original.subrange(i as int, n as int),
            parts_of(out@) =~= featured_parts(parts_of(original.take(i as int))),
        decreases n - i,
    {
        let c = v.remove(0);
        assert(c == original[i as int]);
        proof {
            assert(original.take(i + 1) =~= original.take(i as int).push(c));
            assert(parts_of(original.take(i + 1)) =~= parts_of(original.take(i as int)).push(c.parts()));
        }
        let ghost before = out@;
        let d = c.into_featured_leaderboard();
        out.push(d);
        proof {
            assert(parts_of(out@) =~= parts_of(before).push(d.parts()));
            assert(featured_parts(parts_of(original.take(i + 1))) =~= featured_parts(parts_of(original.take(i as int))).push(d.parts()));
        }
        i = i + 1;
    }
    proof {
        assert(original.take(n as int) =~= original);
    }
    out
}

impl LeaderboardState {
    /// The calls of the small leaderboard of a division (see `little_board`).
    pub fn little_leaderboard_calls(&self, division: &Division, other: Option<&LeaderboardState>) -> (r: Vec<VMixInterfacer<LeaderboardTop6>>)
        requires
            state_showable(*self),
            self.round < usize::MAX,
        ensures
            parts_of(r@) == little_board(*self, *division, opt_state(other)),
    {
        let ghost prevf = prev_fn(opt_state(other), *division);
        let ghost len = in_division(self.players@, *division).len() as int;
        proof {
            lemma_division_names(*self, *division);
            lemma_board_names(*self, *division, prevf, 0, page_len(len, 0));
            lemma_names_ok_concat(board_calls(*self, *division, prevf, 0, page_len(len, 0)), seq![checkin_call(*division, self.round)]);
        }
        let batch = self.big_leaderboard_funcs(division, other, 0);
        self.update_little_leaderboard(division, batch, other)
    }

    /// The calls that show the leaderboard of a division: page `skip` of the
    /// big board, and the small board on the featured title, the cycling title
    /// or its own.
    pub fn send_to_vmix(
        &self,
        cycled: bool,
        division: &Division,
        other: Option<&LeaderboardState>,
        skip: usize,
        featured: bool,
    ) -> (r: LeaderboardCalls)
        requires
            state_showable(*self),
            self.round < usize::MAX,
            skip * 10 <= usize::MAX,
        ensures
            ({
                let prev = opt_state(other);
                let prevf = prev_fn(prev, *division);
                let len = in_division(self.players@, *division).len() as int;
                let calls = little_board(*self, *division, prev);
                &&& parts_of(r.big@) == board_calls(*self, *division, prevf, skip * 10, page_len(len, skip * 10))
                    + seq![checkin_call(*division, self.round)]
                &&& match r.little {
                    LittleLeaderboard::Featured(v) => featured && parts_of(v@) == featured_parts(calls),
                    LittleLeaderboard::Cycled(v) => !featured && cycled && parts_of(v@) == cycled_parts(calls),
                    LittleLeaderboard::Top6(v) => !featured && !cycled && parts_of(v@) == calls,
                }
            }),
    {
        let first_batch = self.big_leaderboard_funcs(division, other, skip);
        let second = self.little_leaderboard_calls(division, other);
        let little = if featured {
            LittleLeaderboard::Featured(into_featured(second))
        } else if cycled {
            LittleLeaderboard::Cycled(into_cycled(second))
        } else {
            LittleLeaderboard::Top6(second)
        };
        LeaderboardCalls { big: first_batch, little }
    }
}

/// What the latest board shows of a player: their move, whether they play a
/// hot round, their position and whether it is shared; nothing where they are
/// not on it.
pub open spec fn latest_row(lb: Leaderboard, p: Player) -> Option<(LeaderboardMovement, bool, usize, bool)> {
    let last = (lb.states@.len() - 1) as usize;
    let cur = lb.states@[lb.current_index(last)->0];
    let f = in_division(cur.players@, p.division);
    match first_player_with_id(f, p.player_id@, 0) {
        Some(k) => {
            let pos = positions(division_totals(cur.players@, p.division))[k];
            let prev = previous_position(lb.state_at(lb.previous_index(last)), p.division, f[k].player_id@);
            Some((
                match prev {
                    Some(o) => LeaderboardMovement::spec_between(pos, o),
                    None => LeaderboardMovement::Same,
                },
                f[k].round_score == min_round(cur.players@) && cur.round != 0,
                pos,
                tie_count(cur.players@, f[k], cur.players@.len() as int) > 1,
            ))
        },
        None => None,
    }
}

/// The row of the latest board, or an empty row.
pub open spec fn shown_row(lb: Leaderboard, p: Player) -> (LeaderboardMovement, bool, usize, bool) {
    match latest_row(lb, p) {
        Some(r) => r,
        None => (LeaderboardMovement::Same, false, 0, false),
    }
}

/// A row's arrow follows the move since the other board: a player whose
/// position number went down (climbed, from `prev` to `pos < prev`) shows the
/// green up arrow, one whose number went up the red down arrow, and one that
/// kept its place none; the number shown beside it is how many places moved.
pub proof fn lemma_row_arrow(p: LeaderboardPlayer, pos: usize, prev: usize)
    requires
        p.movement == LeaderboardMovement::spec_between(pos, prev),
    ensures
        pos < prev ==> row_calls(p)[4].2 == Some(Image::GreenTriUp.location())
            && movement_image(p.movement) == Image::GreenTriUp
            && row_calls(p)[5].2 == Some(nat_to_dec((prev - pos) as nat)),
        pos > prev ==> row_calls(p)[4].2 == Some(Image::RedTriDown.location())
            && movement_image(p.movement) == Image::RedTriDown
            && row_calls(p)[5].2 == Some(nat_to_dec((pos - prev) as nat)),
        pos == prev ==> row_calls(p)[4].2 == Some(Image::Nothing.location()) && movement_image(p.movement) == Image::Nothing,
        row_calls(p)[4].1 == Some(LeaderBoardProperty::Arrow { pos: p.index }),
{
}

/// The image of a move: a player moving down the list gets the red arrow.
pub open spec fn movement_image(m: LeaderboardMovement) -> Image {
    match m {
        LeaderboardMovement::Up(_) => Image::RedTriDown,
        LeaderboardMovement::Down(_) => Image::GreenTriUp,
        LeaderboardMovement::Same => Image::Nothing,
    }
}

/// The text of a move: the number of places, or a space.
pub open spec fn movement_text(m: LeaderboardMovement) -> Seq<char> {
    match m {
        LeaderboardMovement::Up(n) | LeaderboardMovement::Down(n) => nat_to_dec(n as nat),
        LeaderboardMovement::Same => " "@,
    }
}

impl Player {
    fn lb_row(&self, lb: &Leaderboard) -> (r: (LeaderboardMovement, bool, usize, bool))
        requires
            lb.states@.len() > 0,
        ensures
            r == shown_row(*lb, *self),
    {
        match lb.get_lb_player(self) {
            Some(row) => (row.movement, row.hot_round, row.position, row.tied.is_some()),
            None => (LeaderboardMovement::Same, false, 0, false),
        }
    }

    /// The move arrow, the move and the hot-round flame of the player on the
    /// scorecard.
    pub fn add_lb_things(&self, lb: &Leaderboard) -> (r: Vec<VMixInterfacer<VMixPlayerInfo>>)
        requires
            lb.states@.len() > 0,
        ensures
            ({
                let (m, hot, _, _) = shown_row(*lb, *self);
                parts_of(r@) == seq![
                    (VMixFunction::SetImage, Some(VMixPlayerInfo::PositionArrow(0)), Some(movement_image(m).location())),
                    (VMixFunction::SetText, Some(VMixPlayerInfo::PositionMove(0)), Some(movement_text(m))),
                    (VMixFunction::SetImage, Some(VMixPlayerInfo::HotRound(0)),
                        Some(if hot { Image::Flames.location() } else { Image::Nothing.location() })),
                ]
            }),
    {
        let (movement, hot, _, _) = self.lb_row(lb);
        let arrow = match movement {
            LeaderboardMovement::Up(_) => Image::RedTriDown,
            LeaderboardMovement::Down(_) => Image::GreenTriUp,
            LeaderboardMovement::Same => Image::Nothing,
        };
        let text = match movement {
            LeaderboardMovement::Up(n) => usize_to_string(n),
            LeaderboardMovement::Down(n) => usize_to_string(n),
            LeaderboardMovement::Same => String::from_str(" "),
        };
        let flame = if hot { Image::Flames } else { Image::Nothing };
        let mut v = Vec::new();
        v.push(VMixInterfacer::set_image(arrow.to_location(), VMixPlayerInfo::PositionArrow(self.vmix_index())));
        v.push(VMixInterfacer::set_text(text, VMixPlayerInfo::PositionMove(self.vmix_index())));
        v.push(VMixInterfacer::set_image(flame.to_location(), VMixPlayerInfo::HotRound(self.vmix_index())));
        proof {
            let (m, h, _, _) = shown_row(*lb, *self);
            assert(parts_of(v@) =~= seq![
                (VMixFunction::SetImage, Some(VMixPlayerInfo::PositionArrow(0)), Some(movement_image(m).location())),
                (VMixFunction::SetText, Some(VMixPlayerInfo::PositionMove(0)), Some(movement_text(m))),
                (VMixFunction::SetImage, Some(VMixPlayerInfo::HotRound(0)),
                    Some(if h { Image::Flames.location() } else { Image::Nothing.location() })),
            ]);
        }
        v
    }

    /// The position of the player on the scorecard, with a `T` when shared.
    pub fn set_pos(&self, lb: &Leaderboard) -> (r: Option<VMixInterfacer<VMixPlayerInfo>>)
        requires
            lb.states@.len() > 0,
        ensures
            ({
                let (_, _, pos, tied) = shown_row(*lb, *self);
                r matches Some(c) && c.parts() == (VMixFunction::SetText, Some(VMixPlayerInfo::PlayerPosition(0)),
                    Some(if tied { "T"@ + nat_to_dec(pos as nat) } else { nat_to_dec(pos as nat) }))
            }),
    {
        let (_, _, pos, tied) = self.lb_row(lb);
        let text = if tied {
            join2("T", usize_to_string(pos).as_str())
        } else {
            usize_to_string(pos)
        };
        Some(VMixInterfacer::set_text(text, VMixPlayerInfo::PlayerPosition(self.vmix_index())))
    }
}

/// The player with the same id in the state of their round, if any.
pub open spec fn in_current_state(lb: Leaderboard, p: Player) -> Option<Player> {
    match first_state(lb.states@, p.round_ind, 0) {
        Some(k) => match first_player_with_id(lb.states@[k].players@, p.player_id@, 0) {
            Some(j) => Some(lb.states@[k].players@[j]),
            None => None,
        },
        None => None,
    }
}

/// The calls that fill the whole scorecard of a player (see `set_all_values`).
pub open spec fn all_values_calls(lb: Leaderboard, p: Player, max_all: bool, circle_hit: usize, inside_putt: usize) -> Seq<(VMixFunction, Option<VMixPlayerInfo>, Option<Seq<char>>)> {
    let (m, hot, pos, tied) = shown_row(lb, p);
    let scorer = if max_all {
        match in_current_state(lb, p) {
            Some(q) => q,
            None => p,
        }
    } else {
        p
    };
    seq![
        (VMixFunction::SetText, Some(VMixPlayerInfo::Name(0)), Some(p.first_name@)),
        (VMixFunction::SetText, Some(VMixPlayerInfo::Surname(0)), Some(p.surname@)),
        (VMixFunction::SetText, Some(VMixPlayerInfo::PlayerPosition(0)),
            Some(if tied { "T"@ + nat_to_dec(pos as nat) } else { nat_to_dec(pos as nat) })),
        total_score_update(scorer.total_score),
        (VMixFunction::SetText, Some(VMixPlayerInfo::RoundScore(0)), Some("("@ + score_text(scorer.round_score as int) + ")"@)),
    ] + (if max_all { all_score_updates(p.rs()) } else { shown_score_updates(p.rs(), p.hole_shown_up_until as nat) })
        + (if max_all {
            deleted_scores(p.rs().filter(|x: HoleResult| is_open(x)).map_values(|x: HoleResult| x.hole as usize))
        } else {
            deleted_scores(holes_after(p.hole_shown_up_until))
        })
        + seq![(VMixFunction::SetText, Some(VMixPlayerInfo::Throw(0)), Some(nat_to_dec(p.throws as nat)))]
        + seq![
            (VMixFunction::SetImage, Some(VMixPlayerInfo::PositionArrow(0)), Some(movement_image(m).location())),
            (VMixFunction::SetText, Some(VMixPlayerInfo::PositionMove(0)), Some(movement_text(m))),
            (VMixFunction::SetImage, Some(VMixPlayerInfo::HotRound(0)),
                Some(if hot { Image::Flames.location() } else { Image::Nothing.location() })),
        ]
        + seq![
            (VMixFunction::SetText, Some(VMixPlayerInfo::CircleHit(0)), Some(nat_to_dec(circle_hit as nat) + "%"@)),
            (VMixFunction::SetText, Some(VMixPlayerInfo::InsidePutt(0)), Some(nat_to_dec(inside_putt as nat) + "%"@)),
        ]
}

/// Whether the scores that `set_all_values` shows can be computed.
pub open spec fn values_showable(p: Player, max_all: bool) -> bool {
    &&& p.hole_shown_up_until < usize::MAX
    &&& max_all ==> forall|i: int| 0 <= i < p.rs().len() ==> #[trigger] p.rs()[i].fits()
    &&& !max_all ==> forall|h: int| 1 <= h <= p.hole_shown_up_until ==> (#[trigger] first_numbered(p.rs(), h, 0) matches Some(i)
        ==> p.rs()[i].fits())
}

/// The calls of a scorecard moved to slot `index` of the comparison title.
pub open spec fn compare_parts(s: Seq<(VMixFunction, Option<VMixPlayerInfo>, Option<Seq<char>>)>, index: usize) -> Seq<(VMixFunction, Option<Compare2x2>, Option<Seq<char>>)> {
    s.map_values(|c: (VMixFunction, Option<VMixPlayerInfo>, Option<Seq<char>>)| (c.0, match c.1 {
        Some(i) => Some(Compare2x2::Standard(crate::vmix::with_player_index(i, index))),
        None => None,
    }, c.2))
}

/// The picture shown for a player with no image of their own.
pub const PLACEHOLDER_IMAGE: &'static str = "C:\\livegrafik-flipup\\_conf\\placeholder.png";

impl Player {
    /// The calls that fill the whole scorecard: name, position, total and round
    /// scores (with `max_all`, those of the player in the state of their round),
    /// the scores of all results (with `max_all`) or of the holes shown, the
    /// emptied fields, the throws, the leaderboard move and the statistics.
    pub fn set_all_values(
        &self,
        lb: &Leaderboard,
        max_all: bool,
        circle_hit: usize,
        inside_putt: usize,
    ) -> (r: Result<Vec<VMixInterfacer<VMixPlayerInfo>>, crate::error::Error>)
        requires
            lb.states@.len() > 0,
            values_showable(*self, max_all),
        ensures
            r matches Ok(v) && parts_of(v@) == all_values_calls(*lb, *self, max_all, circle_hit, inside_putt),
    {
        let mut out = self.set_name();
        let ghost p0 = parts_of(out@);
        let pos = self.set_pos(lb).unwrap();
        let ghost pp = pos.parts();
        out.push(pos);
        assert(parts_of(out@) =~= p0.push(pp));
        let (tot, round) = if max_all {
            proof {
                lemma_first_state(lb.states@, self.round_ind, 0);
            }
            match lb.find_player_in_current_state(self) {
                Some(q) => {
                    proof {
                        let k = first_state(lb.states@, self.round_ind, 0)->0;
                        lemma_first_player_with_id(lb.states@[k].players@, self.player_id@, 0);
                        assert(in_current_state(*lb, *self) == Some(*q));
                    }
                    (q.set_tot_score(), q.set_round_score())
                },
                None => {
                    (self.set_tot_score(), self.set_round_score())
                },
            }
        } else {
            (self.set_tot_score(), self.set_round_score())
        };
        let ghost tp = tot.parts();
        let ghost rp = round.parts();
        let ghost p1 = parts_of(out@);
        out.push(tot);
        out.push(round);
        assert(parts_of(out@) =~= p1.push(tp).push(rp));
        let ghost head = parts_of(out@);
        proof {
            let (m, hot, pos, tied) = shown_row(*lb, *self);
            let scorer = if max_all {
                match in_current_state(*lb, *self) {
                    Some(q) => q,
                    None => *self,
                }
            } else {
                *self
            };
            assert(head =~= seq![
                (VMixFunction::SetText, Some(VMixPlayerInfo::Name(0)), Some(self.first_name@)),
                (VMixFunction::SetText, Some(VMixPlayerInfo::Surname(0)), Some(self.surname@)),
                (VMixFunction::SetText, Some(VMixPlayerInfo::PlayerPosition(0)),
                    Some(if tied { "T"@ + nat_to_dec(pos as nat) } else { nat_to_dec(pos as nat) })),
                total_score_update(scorer.total_score),
                (VMixFunction::SetText, Some(VMixPlayerInfo::RoundScore(0)), Some("("@ + score_text(scorer.round_score as int) + ")"@)),
            ]);
        }
        if max_all {
            let mut i: usize = 0;
            while i < self.results.results.len()
                invariant
                    i <= self.rs().len(),
                    forall|j: int| 0 <= j < self.rs().len() ==> #[trigger] self.rs()[j].fits(),
                    parts_of(out@) == head + all_score_updates(self.rs().take(i as int)),
                decreases self.rs().len() - i,
            {
                proof {
                    assert(self.rs().take(i + 1).drop_last() =~= self.rs().take(i as int));
                    assert(self.rs().take(i + 1).last() == self.rs()[i as int]);
                    assert(self.rs()[i as int].fits());
                }
                let ghost before = out@;
                let mut calls = self.results.results[i].to_score().update_score(self.vmix_index());
                let ghost added = parts_of(calls@);
                out.append(&mut calls);
                proof {
                    assert(added =~= score_update(self.rs()[i as int]));
                    assert(parts_of(out@) =~= parts_of(before) + added);
                    assert(parts_of(out@) =~= head + all_score_updates(self.rs().take(i + 1)));
                }
                i = i + 1;
            }
            proof {
                assert(self.rs().take(self.rs().len() as int) =~= self.rs());
            }
        } else {
            let mut hole: usize = 0;
            while hole < self.hole_shown_up_until
                invariant
                    hole <= self.hole_shown_up_until,
                    values_showable(*self, false),
                    parts_of(out@) == head + shown_score_updates(self.rs(), hole as nat),
                decreases self.hole_shown_up_until - hole,
            {
                let ghost before = out@;
                proof {
                    assert(first_numbered(self.rs(), hole + 1, 0) matches Some(i) ==> self.rs()[i].fits());
                }
                match self.get_score(hole) {
                    Ok(score) => {
                        let mut calls = score.update_score(self.vmix_index());
                        let ghost added = parts_of(calls@);
                        out.append(&mut calls);
                        proof {
                            let i = first_numbered(self.rs(), hole + 1, 0)->0;
                            assert(added =~= score_update(self.rs()[i]));
                            assert(parts_of(out@) =~= parts_of(before) + added);
                        }
                    },
                    Err(_) => {},
                }
                proof {
                    assert(parts_of(out@) =~= head + shown_score_updates(self.rs(), (hole + 1) as nat));
                }
                hole = hole + 1;
            }
        }
        let ghost mid = parts_of(out@);
        assert(mid == head + (if max_all { all_score_updates(self.rs()) } else { shown_score_updates(self.rs(), self.hole_shown_up_until as nat) }));
        let mut deleted = self.delete_all_scores_after_current(max_all);
        let ghost d = parts_of(deleted@);
        out.append(&mut deleted);
        assert(parts_of(out@) =~= mid + d);
        let ghost m2 = parts_of(out@);
        let throw = self.set_throw();
        let ghost t = throw.parts();
        out.push(throw);
        assert(parts_of(out@) =~= m2 + seq![t]);
        let ghost m3 = parts_of(out@);
        let mut things = self.add_lb_things(lb);
        let ghost th = parts_of(things@);
        out.append(&mut things);
        assert(parts_of(out@) =~= m3 + th);
        let ghost m4 = parts_of(out@);
        let mut stats = self.set_stats(circle_hit, inside_putt);
        let ghost st = parts_of(stats@);
        out.append(&mut stats);
        assert(parts_of(out@) =~= m4 + st);
        proof {
            assert(parts_of(out@) =~= all_values_calls(*lb, *self, max_all, circle_hit, inside_putt));
        }
        Ok(out)
    }

    /// The whole scorecard on slot `index` of the comparison title, and the
    /// player's picture (the file on the vMix machine under Windows, else the
    /// address; a placeholder where there is none).
    pub fn set_all_compare_2x2_values(
        &self,
        index: usize,
        lb: &Leaderboard,
        hidden: bool,
        circle_hit: usize,
        inside_putt: usize,
        windows: bool,
    ) -> (r: Result<Vec<VMixInterfacer<Compare2x2>>, crate::error::Error>)
        requires
            lb.states@.len() > 0,
            values_showable(*self, !hidden),
        ensures
            r matches Ok(v) && parts_of(v@) == compare_parts(all_values_calls(*lb, *self, !hidden, circle_hit, inside_putt), index)
                + seq![(VMixFunction::SetImage, Some(Compare2x2::PlayerImage { index }), Some(
                    match (if windows { crate::text::opt_view(self.image_location) } else { crate::text::opt_view(self.image_url) }) {
                        Some(img) => img,
                        None => PLACEHOLDER_IMAGE@,
                    },
                ))],
    {
        let values = match self.set_all_values(lb, !hidden, circle_hit, inside_putt) {
            Ok(v) => v,
            Err(e) => return Err(e),
        };
        let mut values = values;
        let ghost original = values@;
        let n = values.len();
        let mut out: Vec<VMixInterfacer<Compare2x2>> = Vec::new();
        let mut i: usize = 0;
        while i < n
            invariant
                i <= n,
                n == original.len(),
                values@ =~= original.subrange(i as int, n as int),
                parts_of(out@) =~= compare_parts(parts_of(original.take(i as int)), index),
            decreases n - i,
        {
            let c = values.remove(0);
            assert(c == original[i as int]);
            proof {
                assert(original.take(i + 1) =~= original.take(i as int).push(c));
                assert(parts_of(original.take(i + 1)) =~= parts_of(original.take(i as int)).push(c.parts()));
            }
            let ghost before = out@;
            let d = c.into_compare_2x2_player(index);
            out.push(d);
            proof {
                assert(parts_of(out@) =~= parts_of(before).push(d.parts()));
                assert(compare_parts(parts_of(original.take(i + 1)), index) =~= compare_parts(parts_of(original.take(i as int)), index).push(d.parts()));
            }
            i = i + 1;
        }
        proof {
            assert(original.take(n as int) =~= original);
        }
        let img = if windows { crate::text::clone_opt(&self.image_location) } else { crate::text::clone_opt(&self.image_url) };
        let img = match img {
            Some(i) => i,
            None => String::from_str(PLACEHOLDER_IMAGE),
        };
        let ghost before = out@;
        out.push(VMixInterfacer::set_image(img, Compare2x2::PlayerImage { index }));
        Ok(out)
    }
}

/// Filtering a prefix gives a prefix of the filtered sequence.
pub proof fn lemma_filter_prefix<A>(s: Seq<A>, pred: spec_fn(A) -> bool, n: int)
    requires
        0 <= n <= s.len(),
    ensures
        s.take(n).filter(pred).len() <= s.filter(pred).len(),
        s.take(n).filter(pred) =~= s.filter(pred).take(s.take(n).filter(pred).len() as int),
    decreases s.len() - n,
{
    if n < s.len() {
        lemma_filter_prefix(s, pred, n + 1);
        assert(s.take(n + 1) =~= s.take(n).push(s[n]));
        s.take(n).lemma_filter_push(s[n], pred);
        let a = s.take(n).filter(pred);
        let b = s.take(n + 1).filter(pred);
        assert(a =~= b.take(a.len() as int));
    } else {
        assert(s.take(n) =~= s);
    }
}

} // verus!
