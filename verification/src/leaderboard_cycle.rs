//! The leaderboard that cycles through the divisions beside the featured one.
use vstd::prelude::*;

use crate::division::Division;
use crate::handler::division_view;
use crate::coordinator::board_with;
use crate::standings::{division_totals, in_division, positions, Leaderboard, LeaderboardPlayer, LeaderboardState};

verus! {

/// Whether a division is worth showing on the cycling board of round `round`:
/// it has players, and not all of them share the first place.
pub open spec fn worth_cycling(board: Leaderboard, d: Division, round: usize) -> bool {
    let cur = board.states@[board.current_index(round)->0];
    let f = in_division(cur.players@, d);
    f.len() > 0 && exists|k: int| 0 <= k < f.len() && #[trigger] positions(division_totals(cur.players@, d))[k] != 1
}

/// Whether the division at offset `j` of the list is the next to cycle to:
/// it is not the featured division and it is worth showing.
pub open spec fn cycles_to(board: Leaderboard, divs: Seq<Division>, featured: Division, round: usize, j: int) -> bool {
    division_view(divs[j]) != division_view(featured) && worth_cycling(board, divs[j], round)
}

/// The list after its first `n` divisions were moved to its back.
pub open spec fn rotated(divs: Seq<Division>, n: int) -> Seq<Division> {
    divs.subrange(n, divs.len() as int) + divs.subrange(0, n)
}

/// The divisions the board cycles through, the one shown, and the featured one.
pub struct LeaderboardCycle {
    pub current_cycled: Division,
    pub all_divisions: Vec<Division>,
    pub leaderboard: Leaderboard,
    pub round: usize,
    pub current_featured_div: Division,
    pub featured_group_id: String,
}

impl LeaderboardCycle {
    /// A cycle through the divisions of the events, starting at the first, on
    /// the boards of the earlier rounds marked as cycling.
    pub fn new(
        divisions: Vec<Division>,
        leaderboard: Leaderboard,
        round: usize,
        featured_div: Division,
        featured_group_id: String,
    ) -> (r: Self)
        requires
            divisions@.len() > 0,
        ensures
            r.current_cycled == divisions@[0],
            r.all_divisions@ == divisions@,
            r.leaderboard == (Leaderboard { cycle: true, ..leaderboard }),
            r.round == round,
            r.current_featured_div == featured_div,
            r.featured_group_id@ == featured_group_id@,
    {
        let mut leaderboard = leaderboard;
        leaderboard.cycle = true;
        let current = divisions[0].duplicate();
        LeaderboardCycle {
            current_cycled: current,
            all_divisions: divisions,
            leaderboard,
            round,
            current_featured_div: featured_div,
            featured_group_id,
        }
    }

    /// Moves on to the next division worth showing that is not featured: the
    /// divisions before it and it go to the back of the list. Returns it, and
    /// whether it has fewer than six players (its small board then needs
    /// emptying first).
    pub fn cycle_next(&mut self) -> (r: (Division, bool))
        requires
            old(self).leaderboard.states@.len() > 0,
            exists|j: int| 0 <= j < old(self).all_divisions@.len()
                && #[trigger] cycles_to(old(self).leaderboard, old(self).all_divisions@, old(self).current_featured_div, old(self).round, j),
        ensures
            ({
                let divs = old(self).all_divisions@;
                exists|t: int| #![trigger cycles_to(old(self).leaderboard, divs, old(self).current_featured_div, old(self).round, t)] {
                    &&& 0 <= t < divs.len()
                    &&& cycles_to(old(self).leaderboard, divs, old(self).current_featured_div, old(self).round, t)
                    &&& forall|j: int| 0 <= j < t ==> !#[trigger] cycles_to(old(self).leaderboard, divs, old(self).current_featured_div, old(self).round, j)
                    &&& final(self).all_divisions@ == rotated(divs, t + 1)
                    &&& division_view(r.0) == division_view(divs[t])
                    &&& r.1 == (in_division(old(self).leaderboard.states@[old(self).leaderboard.current_index(old(self).round)->0].players@, divs[t]).len() < 6)
                }
            }),
            final(self).leaderboard == old(self).leaderboard,
            final(self).round == old(self).round,
            final(self).current_featured_div == old(self).current_featured_div,
            final(self).current_cycled == old(self).current_cycled,
    {
        let ghost divs = self.all_divisions@;
        let n = self.all_divisions.len();
        let mut t: usize = 0;
        while t < n
            invariant
                t <= n,
                n == divs.len(),
                divs == old(self).all_divisions@,
                self.all_divisions@ == rotated(divs, t as int),
                self.leaderboard == old(self).leaderboard,
                self.leaderboard.states@.len() > 0,
                self.round == old(self).round,
                self.current_featured_div == old(self).current_featured_div,
                self.current_cycled == old(self).current_cycled,
                forall|j: int| 0 <= j < t ==> !#[trigger] cycles_to(self.leaderboard, divs, self.current_featured_div, self.round, j),
                exists|j: int| 0 <= j < divs.len() && #[trigger] cycles_to(self.leaderboard, divs, self.current_featured_div, self.round, j),
            decreases n - t,
        {
            proof {
                assert(rotated(divs, t as int)[0] == divs[t as int]);
            }
            let div = self.all_divisions.remove(0);
            assert(div == divs[t as int]);
            let back = div.duplicate();
            self.all_divisions.push(back);
            proof {
                assert(self.all_divisions@ =~= rotated(divs, t + 1));
            }
            let featured = crate::text::str_eq(div.id.as_str(), self.current_featured_div.id.as_str())
                && crate::text::str_eq(div.name.as_str(), self.current_featured_div.name.as_str())
                && crate::text::str_eq(div.short_name.as_str(), self.current_featured_div.short_name.as_str());
            if !featured {
                let rows = self.leaderboard.all_players_in_div(&div, self.round);
                let mut any_not_first = false;
                let mut k: usize = 0;
                while k < rows.len()
                    invariant
                        k <= rows@.len(),
                        rows@.len() == in_division(self.leaderboard.states@[self.leaderboard.current_index(self.round)->0].players@, div).len(),
                        forall|i: int| #![trigger rows@[i]] 0 <= i < rows@.len() ==> rows@[i].position
                            == positions(division_totals(self.leaderboard.states@[self.leaderboard.current_index(self.round)->0].players@, div))[i],
                        any_not_first == exists|i: int| 0 <= i < k && #[trigger] positions(division_totals(
                            self.leaderboard.states@[self.leaderboard.current_index(self.round)->0].players@, div))[i] != 1,
                    decreases rows@.len() - k,
                {
                    if rows[k].position != 1 {
                        any_not_first = true;
                    }
                    k = k + 1;
                }
                if rows.len() > 0 && any_not_first {
                    proof {
                        assert(cycles_to(self.leaderboard, divs, self.current_featured_div, self.round, t as int));
                        assert(self.all_divisions@ == rotated(divs, t + 1));
                    }
                    let few = rows.len() < 6;
                    proof {
                        let ti = t as int;
                        assert(0 <= ti < divs.len());
                        assert(forall|j: int| 0 <= j < ti ==> !#[trigger] cycles_to(old(self).leaderboard, divs, old(self).current_featured_div, old(self).round, j));
                        assert(division_view(div) == division_view(divs[ti]));
                        assert(few == (in_division(old(self).leaderboard.states@[old(self).leaderboard.current_index(old(self).round)->0].players@, divs[ti]).len() < 6));
                        assert(divs == old(self).all_divisions@);
                        assert(self.all_divisions@ == rotated(old(self).all_divisions@, ti + 1));
                        assert(cycles_to(old(self).leaderboard, old(self).all_divisions@, old(self).current_featured_div, old(self).round, ti));
                    }
                    return (div, few);
                }
            }
            t = t + 1;
        }
        proof {
            let j = choose|j: int| 0 <= j < divs.len() && #[trigger] cycles_to(self.leaderboard, divs, self.current_featured_div, self.round, j);
            assert(!cycles_to(self.leaderboard, divs, self.current_featured_div, self.round, j));
        }
        (self.current_cycled.duplicate(), false)
    }

    /// Adds the latest board of the coordinator, then moves on to the next
    /// division (see `cycle_next`), which is then shown.
    pub fn next(&mut self, state: LeaderboardState) -> (r: bool)
        requires
            forall|b: Leaderboard| #[trigger] board_with(old(self).leaderboard, b, state) ==> exists|j: int| 0 <= j < old(self).all_divisions@.len()
                && #[trigger] cycles_to(b, old(self).all_divisions@, old(self).current_featured_div, old(self).round, j),
        ensures
            board_with(old(self).leaderboard, final(self).leaderboard, state),
            exists|t: int| #![trigger cycles_to(final(self).leaderboard, old(self).all_divisions@, old(self).current_featured_div, old(self).round, t)] {
                &&& 0 <= t < old(self).all_divisions@.len()
                &&& cycles_to(final(self).leaderboard, old(self).all_divisions@, old(self).current_featured_div, old(self).round, t)
                &&& forall|j: int| 0 <= j < t ==> !#[trigger] cycles_to(final(self).leaderboard, old(self).all_divisions@, old(self).current_featured_div, old(self).round, j)
                &&& final(self).all_divisions@ == rotated(old(self).all_divisions@, t + 1)
                &&& division_view(final(self).current_cycled) == division_view(old(self).all_divisions@[t])
                &&& r == (in_division(final(self).leaderboard.states@[final(self).leaderboard.current_index(old(self).round)->0].players@, old(self).all_divisions@[t]).len() < 6)
            },
    {
        self.leaderboard.add_state(state);
        proof {
            let b = self.leaderboard;
            assert(board_with(old(self).leaderboard, b, state));
            let j = choose|j: int| 0 <= j < old(self).all_divisions@.len()
                && #[trigger] cycles_to(b, old(self).all_divisions@, old(self).current_featured_div, old(self).round, j);
            assert(cycles_to(self.leaderboard, self.all_divisions@, self.current_featured_div, self.round, j));
        }
        let (div, few) = self.cycle_next();
        self.current_cycled = div;
        few
    }
}

/// Moving divisions from the front of the list to its back keeps the same
/// divisions, each as often as before.
pub proof fn lemma_rotation_keeps_divisions(divs: Seq<Division>, n: int)
    requires
        0 <= n <= divs.len(),
    ensures
        rotated(divs, n).to_multiset() == divs.to_multiset(),
        rotated(divs, n).len() == divs.len(),
{
    let a = divs.subrange(0, n);
    let b = divs.subrange(n, divs.len() as int);
    assert(divs =~= a + b);
    vstd::seq_lib::lemma_multiset_commutative(a, b);
    vstd::seq_lib::lemma_multiset_commutative(b, a);
}

} // verus!
