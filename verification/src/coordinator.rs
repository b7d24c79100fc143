//! The state of a broadcast and the operator's actions on it: which players
//! are on the card and in focus, their scorecards, the leaderboards, and the
//! vMix commands each action sends.
use vstd::prelude::*;

use crate::division::Division;
use crate::error::Error;
use crate::event::Group;
use crate::player::{parts_of, Player};
use crate::queue::{card_of, derefs, focus_on, no_zero_position, replaced, PlayerManager, QueueEntry};
use crate::event::player_ids_of;
use crate::rust_handler::RustHandler;
use crate::standings::{can_count, counted, first_player_with_id, in_division, Leaderboard, LeaderboardStart, LeaderboardState};
use crate::player::{counted_holes, relative_sum, same_player, can_show_in, shown_result_in, shown_results_in, can_increase, current_calls, increase_calls, increased, scored_rs, can_revert, copies, copy_of, current_view, latest_showable, reset, reset_calls, revert_calls, reverted, round_fits, RankUpDown};
use crate::text::nat_to_dec;
use crate::round::{done_results, HoleResult};
use crate::rust_handler::{merge_rounds, merged, views};
use crate::vmix::{Compare2x2, CurrentPlayer, Featured, VMixPlayerInfo};
use crate::hole::{find_hole_spec, FeaturedHole, HoleAverage, VMixHoleInfo};
use crate::round::hole_info_parts;
use crate::results::{all_refreshed, can_refresh, first_finishing, record_update_all, refresh_all, PlayerResults, TjingResultMap};
use crate::text::opt_view;
use crate::standings::{compare_parts, PLACEHOLDER_IMAGE, all_values_calls, movement_image, movement_text, shown_row, values_showable};
use crate::leaderboard_prop::{shortenable_name, LeaderBoardProperty};
use crate::score::Image;
use crate::standings::{board_calls, checkin_call, cycled_parts, holes_showable, little_board, page_len, prev_fn, state_showable, LeaderboardCalls, LittleLeaderboard};
use crate::sort::stable_sorted;
use crate::vmix::{cmd_text, selection_of, VMixFunction, VMixInterfacer, VMixSelectionTrait};

verus! {

/// The input part of a call given by its parts (see `VMixInterfacer::input_text`).
pub open spec fn part_input<T: VMixSelectionTrait>(p: (VMixFunction, Option<T>, Option<Seq<char>>)) -> Option<Seq<char>> {
    match p.0 {
        VMixFunction::OverlayInput4 => match p.2 {
            Some(v) => Some("Input="@ + v),
            None => None,
        },
        VMixFunction::OverlayInput4Off => None,
        _ => match p.1 {
            Some(i) => Some(selection_of(i)),
            None => None,
        },
    }
}

/// The command text of a call given by its parts.
pub open spec fn part_cmd<T: VMixSelectionTrait>(p: (VMixFunction, Option<T>, Option<Seq<char>>)) -> Seq<char> {
    cmd_text(p.0.start_text(), part_input(p), p.2)
}

/// The command texts of calls given by their parts.
pub open spec fn part_cmds<T: VMixSelectionTrait>(ps: Seq<(VMixFunction, Option<T>, Option<Seq<char>>)>) -> Seq<Seq<char>> {
    ps.map_values(|p: (VMixFunction, Option<T>, Option<Seq<char>>)| part_cmd(p))
}

/// Whether calls given by their parts can be rendered.
pub open spec fn parts_renderable<T: VMixSelectionTrait>(ps: Seq<(VMixFunction, Option<T>, Option<Seq<char>>)>) -> bool {
    forall|i: int| 0 <= i < ps.len() ==> ((#[trigger] ps[i]).1 matches Some(x) ==> x.well_formed())
}

/// The controller of a broadcast.
pub struct FlipUpVMixCoordinator {
    pub all_divs: Vec<Division>,
    pub leaderboard_division: Division,
    pub leaderboard: Leaderboard,
    focused_player_index: usize,
    ip: String,
    handler: RustHandler,
    round_ind: usize,
    current_through: u8,
    pub vmix_queue: Vec<String>,
    player_manager: PlayerManager,
    pub event_ids: Vec<String>,
    featured_card: PlayerManager,
    featured_hole: u8,
    groups_featured_so_far: u8,
    pub leaderboard_round: usize,
    pub next_group: String,
}

impl FlipUpVMixCoordinator {
    /// What was read of the events.
    pub closed spec fn handler_of(&self) -> RustHandler {
        self.handler
    }

    /// The players of the card and the queue, with the one in focus.
    pub closed spec fn manager(&self) -> PlayerManager {
        self.player_manager
    }

    /// The card featured in the compare view.
    pub closed spec fn featured_manager(&self) -> PlayerManager {
        self.featured_card
    }

    /// The leaderboards.
    pub closed spec fn board(&self) -> Leaderboard {
        self.leaderboard
    }

    /// The commands sent to vMix so far, in order.
    pub closed spec fn sent(&self) -> Seq<Seq<char>> {
        self.vmix_queue@.map_values(|s: String| s@)
    }

    /// The division shown on the leaderboard.
    pub closed spec fn division(&self) -> Division {
        self.leaderboard_division
    }

    /// The divisions of the events.
    pub closed spec fn divisions(&self) -> Seq<Division> {
        self.all_divs@
    }

    /// The round that is on.
    pub closed spec fn round(&self) -> usize {
        self.round_ind
    }

    /// The round the leaderboard shows.
    pub closed spec fn board_round(&self) -> usize {
        self.leaderboard_round
    }

    /// The hole the focused player was shown through when last looked at.
    pub closed spec fn through(&self) -> u8 {
        self.current_through
    }

    /// The hole shown on the featured hole card.
    pub closed spec fn featured_hole_number(&self) -> u8 {
        self.featured_hole
    }

    /// How many groups have been featured.
    pub closed spec fn featured_count(&self) -> u8 {
        self.groups_featured_so_far
    }

    /// The id of the group to feature next.
    pub closed spec fn next_group_id(&self) -> Seq<char> {
        self.next_group@
    }

    /// The index of the player animated on the scorecard.
    pub closed spec fn animated_index(&self) -> usize {
        self.focused_player_index
    }

    /// The players of the round that is on.
    pub open spec fn players(&self) -> Seq<Player> {
        self.handler_of().rounds()[self.handler_of().container_round() as int]
    }

    /// The id of the player in focus.
    pub open spec fn focus_id(&self) -> Seq<char> {
        self.manager().entries()[self.manager().focus()].id
    }

    /// The index, among the players of the round, of the player in focus.
    pub open spec fn focus_index(&self) -> int {
        first_player_with_id(self.players(), self.focus_id(), 0)->0
    }

    /// The player in focus.
    pub open spec fn focused(&self) -> Player {
        self.players()[self.focus_index()]
    }

    /// Whether the round that is on was read, a player is in focus and is one
    /// of its players, and no queue position is zero.
    pub open spec fn ready(&self) -> bool {
        &&& self.handler_of().container_round() < self.handler_of().rounds().len()
        &&& self.manager().has_focus()
        &&& no_zero_position(self.manager().entries())
        &&& first_player_with_id(self.players(), self.focus_id(), 0) is Some
    }

    /// Whether `other` is `self` with only the players of the round that is on
    /// changed, to `players`, and more commands sent.
    pub open spec fn same_but_players(&self, other: &Self, players: Seq<Player>) -> bool {
        &&& other.handler_of().rounds() == self.handler_of().rounds().update(self.handler_of().container_round() as int, players)
        &&& other.board() == self.board()
        &&& self.same_setup(other)
    }

    /// Whether `other` has the same setup as `self`: the same card, queue and
    /// focus, divisions, rounds, groups and featured card; its players, boards
    /// and commands sent may differ.
    pub open spec fn same_setup(&self, other: &Self) -> bool {
        &&& other.handler_of().container_round() == self.handler_of().container_round()
        &&& other.handler_of().round() == self.handler_of().round()
        &&& other.handler_of().chosen() == self.handler_of().chosen()
        &&& other.handler_of().division_list() == self.handler_of().division_list()
        &&& other.handler_of().round_id_lists() == self.handler_of().round_id_lists()
        &&& other.handler_of().group_lists() == self.handler_of().group_lists()
        &&& other.manager() == self.manager()
        &&& other.featured_manager() == self.featured_manager()
        &&& other.division() == self.division()
        &&& other.divisions() == self.divisions()
        &&& other.round() == self.round()
        &&& other.board_round() == self.board_round()
        &&& other.featured_hole_number() == self.featured_hole_number()
        &&& other.featured_count() == self.featured_count()
        &&& other.next_group_id() == self.next_group_id()
        &&& other.animated_index() == self.animated_index()
    }

    /// Sends calls to vMix: their command texts join the queue, in order.
    fn queue_add<T: VMixSelectionTrait>(&mut self, funcs: &Vec<VMixInterfacer<T>>)
        requires
            parts_renderable(parts_of(funcs@)),
        ensures
            final(self).sent() == old(self).sent() + part_cmds(parts_of(funcs@)),
            final(self).handler_of() == old(self).handler_of(),
            final(self).manager() == old(self).manager(),
            final(self).featured_manager() == old(self).featured_manager(),
            final(self).board() == old(self).board(),
            final(self).division() == old(self).division(),
            final(self).divisions() == old(self).divisions(),
            final(self).round() == old(self).round(),
            final(self).board_round() == old(self).board_round(),
            final(self).through() == old(self).through(),
            final(self).featured_hole_number() == old(self).featured_hole_number(),
            final(self).featured_count() == old(self).featured_count(),
            final(self).next_group_id() == old(self).next_group_id(),
            final(self).animated_index() == old(self).animated_index(),
    {
        let ghost start = self.sent();
        let mut i: usize = 0;
        while i < funcs.len()
            invariant
                i <= funcs@.len(),
                parts_renderable(parts_of(funcs@)),
                self.sent() =~= start + part_cmds(parts_of(funcs@)).take(i as int),
                self.handler == old(self).handler,
                self.player_manager == old(self).player_manager,
                self.featured_card == old(self).featured_card,
                self.leaderboard == old(self).leaderboard,
                self.leaderboard_division == old(self).leaderboard_division,
                self.all_divs == old(self).all_divs,
                self.round_ind == old(self).round_ind,
                self.leaderboard_round == old(self).leaderboard_round,
                self.current_through == old(self).current_through,
                self.featured_hole == old(self).featured_hole,
                self.groups_featured_so_far == old(self).groups_featured_so_far,
                self.next_group == old(self).next_group,
                self.focused_player_index == old(self).focused_player_index,
            decreases funcs@.len() - i,
        {
            let f = &funcs[i];
            proof {
                assert(parts_of(funcs@)[i as int] == f.parts());
                assert(f.renderable());
                assert(part_cmd(f.parts()) == f.cmd());
            }
            let cmd = f.to_cmd();
            let ghost before = self.vmix_queue@;
            self.vmix_queue.push(cmd);
            proof {
                assert(self.vmix_queue@ == before.push(cmd));
                assert(self.sent() =~= before.map_values(|s: String| s@).push(cmd@));
                assert(part_cmds(parts_of(funcs@)).take(i + 1) =~= part_cmds(parts_of(funcs@)).take(i as int).push(part_cmd(parts_of(funcs@)[i as int])));
            }
            i = i + 1;
        }
        proof {
            assert(part_cmds(parts_of(funcs@)).take(funcs@.len() as int) =~= part_cmds(parts_of(funcs@)));
        }
    }
}

impl FlipUpVMixCoordinator {
    /// The players of the round that is on.
    pub fn available_players(&self) -> (r: Vec<&Player>)
        requires
            self.handler_of().container_round() < self.handler_of().rounds().len(),
        ensures
            derefs(r@) == self.players(),
    {
        self.handler.get_players()
    }

    /// The players of the rounds before the one that is on.
    pub fn previous_rounds_players(&self) -> (r: Vec<&Player>)
        ensures
            derefs(r@) == crate::rust_handler::flatten_rounds(crate::rust_handler::before_round(
                self.handler_of().rounds(),
                self.handler_of().container_round() as int,
            )),
    {
        self.handler.get_previous_rounds_players()
    }

    /// The player in focus.
    pub fn focused_player(&self) -> (r: &Player)
        requires
            self.ready(),
        ensures
            *r == self.focused(),
    {
        let players = self.available_players();
        let ghost pv = players@;
        let found = self.player_manager.player(players);
        match found {
            Some(p) => {
                proof {
                    let k = first_player_with_id(derefs(pv), self.focus_id(), 0)->0;
                    crate::queue::lemma_first_player(derefs(pv), self.focus_id(), 0);
                    assert(derefs(pv)[k] == *pv[k]);
                }
                p
            },
            None => {
                proof {
                    assert(false);
                }
                self.player_manager.player(self.available_players()).unwrap()
            },
        }
    }

    /// The player in focus, to change.
    pub fn focused_player_mut(&mut self) -> (r: &mut Player)
        requires
            old(self).ready(),
        ensures
            *r == old(self).focused(),
            old(self).same_but_players(&*final(self), old(self).players().update(old(self).focus_index(), *final(r))),
            final(self).sent() == old(self).sent(),
            final(self).through() == old(self).through(),
    {
        let id = self.focused_player().player_id.clone();
        proof {
            crate::queue::lemma_first_player(self.players(), self.focus_id(), 0);
            assert(id@ == self.focus_id());
        }
        self.handler.find_player_mut(id.as_str()).unwrap()
    }

    /// The hole the player in focus is shown through.
    pub fn current_hole(&self) -> (r: usize)
        requires
            self.ready(),
        ensures
            r == self.focused().hole_shown_up_until,
    {
        self.focused_player().hole_shown_up_until
    }

    /// The divisions of the events.
    pub fn all_divisions(&self) -> (r: &Vec<Division>)
        ensures
            r@ == self.divisions(),
    {
        &self.all_divs
    }

    /// The division shown on the leaderboard.
    pub fn leaderboard_division(&self) -> (r: &Division)
        ensures
            *r == self.division(),
    {
        &self.leaderboard_division
    }

    /// The round that is on.
    pub fn get_round(&self) -> (r: usize)
        ensures
            r == self.round(),
    {
        self.round_ind
    }

    /// The number of rounds read.
    pub fn amount_of_rounds(&self) -> (r: usize)
        ensures
            r == self.handler_of().rounds().len(),
    {
        self.handler.amount_of_rounds()
    }

    /// The groups of the round that is on.
    pub fn groups(&self) -> (r: &Vec<Group>)
        requires
            self.handler_of().round() < self.handler_of().group_lists().len(),
        ensures
            r@ == self.handler_of().group_lists()[self.handler_of().round() as int]@,
    {
        self.handler.groups()
    }

    /// The managed players, for each entry the first player with its id.
    pub fn current_players(&self) -> (r: Vec<&Player>)
        requires
            self.handler_of().container_round() < self.handler_of().rounds().len(),
        ensures
            derefs(r@) == crate::queue::matched_players(self.manager().entries(), self.players()),
    {
        self.player_manager.players(self.available_players())
    }

    /// The first player of the round with the given id, to change.
    pub fn find_player_mut(&mut self, player_id: &str) -> (r: Option<&mut Player>)
        requires
            old(self).handler_of().container_round() < old(self).handler_of().rounds().len(),
        ensures
            match first_player_with_id(old(self).players(), player_id@, 0) {
                Some(k) => r matches Some(x) && *x == old(self).players()[k]
                    && old(self).same_but_players(&*final(self), old(self).players().update(k, *final(x))),
                None => r is None && old(self).same_but_players(&*final(self), old(self).players()),
            },
            final(self).sent() == old(self).sent(),
            final(self).through() == old(self).through(),
    {
        proof {
            assert(self.handler_of().rounds() =~= self.handler_of().rounds().update(
                self.handler_of().container_round() as int, self.players()));
        }
        self.handler.find_player_mut(player_id)
    }

    /// The name of the player in focus.
    pub fn get_focused_player_name(&self) -> (r: &str)
        requires
            self.ready(),
        ensures
            r@ == self.focused().name@,
    {
        self.focused_player().name.as_str()
    }

    /// The names of the divisions.
    pub fn get_div_names(&self) -> (r: Vec<String>)
        ensures
            r@.map_values(|s: String| s@) == self.handler_of().division_list().map_values(|d: Division| d.name@),
    {
        let divs = self.handler.get_divisions();
        let mut out: Vec<String> = Vec::new();
        let mut i: usize = 0;
        while i < divs.len()
            invariant
                i <= divs@.len(),
                divs@.map_values(|d: Division| crate::handler::division_view(d)) == self.handler_of().division_list().map_values(|d: Division| crate::handler::division_view(d)),
                out@.map_values(|s: String| s@) =~= divs@.take(i as int).map_values(|d: Division| d.name@),
            decreases divs@.len() - i,
        {
            let ghost before = out@;
            out.push(divs[i].name.clone());
            proof {
                assert(out@.map_values(|s: String| s@) =~= before.map_values(|s: String| s@).push(divs@[i as int].name@));
                assert(divs@.take(i + 1) =~= divs@.take(i as int).push(divs@[i as int]));
            }
            i = i + 1;
        }
        proof {
            assert(divs@.take(divs@.len() as int) =~= divs@);
            let a = divs@.map_values(|d: Division| d.name@);
            let b = self.handler_of().division_list().map_values(|d: Division| d.name@);
            assert forall|j: int| 0 <= j < a.len() implies a[j] == b[j] by {
                assert(divs@.map_values(|d: Division| crate::handler::division_view(d))[j]
                    == self.handler_of().division_list().map_values(|d: Division| crate::handler::division_view(d))[j]);
            }
            assert(a =~= b);
        }
        out
    }

    /// The names of the players of the round that is on.
    pub fn get_player_names(&self) -> (r: Vec<String>)
        requires
            self.handler_of().container_round() < self.handler_of().rounds().len(),
        ensures
            r@.map_values(|s: String| s@) == self.players().map_values(|p: Player| p.name@),
    {
        let players = self.available_players();
        let mut out: Vec<String> = Vec::new();
        let mut i: usize = 0;
        while i < players.len()
            invariant
                i <= players@.len(),
                derefs(players@) == self.players(),
                out@.map_values(|s: String| s@) =~= self.players().take(i as int).map_values(|p: Player| p.name@),
            decreases players@.len() - i,
        {
            let ghost before = out@;
            out.push(players[i].name.clone());
            proof {
                assert(self.players()[i as int] == *players@[i as int]);
                assert(out@.map_values(|s: String| s@) =~= before.map_values(|s: String| s@).push(self.players()[i as int].name@));
                assert(self.players().take(i + 1) =~= self.players().take(i as int).push(self.players()[i as int]));
            }
            i = i + 1;
        }
        proof {
            assert(self.players().take(players@.len() as int) =~= self.players());
        }
        out
    }

    /// The ids of the players of the round that is on.
    pub fn get_player_ids(&self) -> (r: Vec<String>)
        requires
            self.handler_of().container_round() < self.handler_of().rounds().len(),
        ensures
            r@.map_values(|s: String| s@) == self.players().map_values(|p: Player| p.player_id@),
    {
        let players = self.available_players();
        let mut out: Vec<String> = Vec::new();
        let mut i: usize = 0;
        while i < players.len()
            invariant
                i <= players@.len(),
                derefs(players@) == self.players(),
                out@.map_values(|s: String| s@) =~= self.players().take(i as int).map_values(|p: Player| p.player_id@),
            decreases players@.len() - i,
        {
            let ghost before = out@;
            out.push(players[i].player_id.clone());
            proof {
                assert(self.players()[i as int] == *players@[i as int]);
                assert(out@.map_values(|s: String| s@) =~= before.map_values(|s: String| s@).push(self.players()[i as int].player_id@));
                assert(self.players().take(i + 1) =~= self.players().take(i as int).push(self.players()[i as int]));
            }
            i = i + 1;
        }
        proof {
            assert(self.players().take(players@.len() as int) =~= self.players());
        }
        out
    }

    /// The managed players for the interface.
    pub fn dto_players(&self) -> (r: Vec<crate::dto::Player>)
        requires
            self.handler_of().container_round() < self.handler_of().rounds().len(),
        ensures
            r@.map_values(|d: crate::dto::Player| crate::queue::dto_view(d)) == crate::queue::listed(
                self.manager().entries(), self.manager().focus(), self.players(), false, self.manager().entries().len() as int),
    {
        self.player_manager.dto_players(self.available_players(), false)
    }

    /// The players on the card for the interface.
    pub fn dto_card(&self) -> (r: Vec<crate::dto::Player>)
        requires
            self.handler_of().container_round() < self.handler_of().rounds().len(),
        ensures
            r@.map_values(|d: crate::dto::Player| crate::queue::dto_view(d)) == crate::queue::listed(
                self.manager().entries(), self.manager().focus(), self.players(), true, self.manager().entries().len() as int),
    {
        self.player_manager.dto_players(self.available_players(), true)
    }

    /// The id of the round that is on, for each event.
    pub fn round_ids(&self) -> (r: Vec<String>)
        requires
            forall|e: int| 0 <= e < self.handler_of().round_id_lists().len() ==>
                self.handler_of().round() < (#[trigger] self.handler_of().round_id_lists()[e])@.len(),
        ensures
            r@.map_values(|s: String| s@) == self.handler_of().round_id_lists().map_values(|v: Vec<String>| v@[self.handler_of().round() as int]@),
    {
        proof {
            let h = self.handler_of();
            assert forall|e: int| 0 <= e < self.handler.round_id_lists().len() implies
                self.handler.round() < (#[trigger] self.handler.round_id_lists()[e])@.len() by {
                assert(h.round() < h.round_id_lists()[e]@.len());
            }
        }
        self.handler.round_ids()
    }
}

/// The total a player has on the latest board of their division, where it is
/// listed there (see `Leaderboard::get_lb_player`).
pub open spec fn board_total(board: Leaderboard, p: Player) -> Option<isize> {
    let last = (board.states@.len() - 1) as usize;
    let cur = board.states@[board.current_index(last)->0];
    let f = in_division(cur.players@, p.division);
    match first_player_with_id(f, p.player_id@, 0) {
        Some(k) => Some(f[k].total_score),
        None => None,
    }
}

/// The total that the rows of the first `n` players give last to the id.
pub open spec fn last_board_total(players: Seq<Player>, board: Leaderboard, id: Seq<char>, n: int) -> Option<isize>
    decreases n,
{
    if n <= 0 {
        None
    } else if players[n - 1].player_id@ == id && board_total(board, players[n - 1]) is Some {
        board_total(board, players[n - 1])
    } else {
        last_board_total(players, board, id, n - 1)
    }
}

/// The player at index `j` after the totals of the first `n` rows were taken:
/// the first player with an id takes the total the rows give it last.
pub open spec fn with_total_at(players: Seq<Player>, board: Leaderboard, j: int, n: int) -> Player {
    let p = players[j];
    if first_player_with_id(players, p.player_id@, 0) == Some(j) {
        match last_board_total(players, board, p.player_id@, n) {
            Some(t) => Player { total_score: t, ..p },
            None => p,
        }
    } else {
        p
    }
}

/// The players after their totals were taken from the board.
pub open spec fn with_board_totals(players: Seq<Player>, board: Leaderboard) -> Seq<Player> {
    Seq::new(players.len(), |j: int| with_total_at(players, board, j, players.len() as int))
}

/// Whether every player of the round can be counted against the earlier ones
/// without overflow.
pub open spec fn board_ready(players: Seq<Player>, prev: Seq<Player>) -> bool {
    &&& forall|i: int| 0 <= i < players.len() ==> #[trigger] can_count(players[i], prev)
    &&& forall|i: int| 0 <= i < prev.len() ==> round_fits((#[trigger] prev[i]).rs())
}

/// Whether a board state counts copies of the given players against copies of
/// the earlier ones (see `LeaderboardState::new`).
pub open spec fn counted_state(s: LeaderboardState, round: usize, players: Seq<Player>, prev: Seq<Player>) -> bool {
    &&& s.round == round
    &&& s.where_to_start == LeaderboardStart::Latest
    &&& exists|cur: Seq<Player>, before: Seq<Player>| #![trigger copies(cur, players), copies(before, prev)]
        copies(cur, players) && copies(before, prev) && s.players@ == stable_sorted(cur.map_values(|p: Player| counted(p, before)))
}

/// Whether `new` is `old` with the state added (see `Leaderboard::add_state`).
pub open spec fn board_with(old: Leaderboard, new: Leaderboard, s: LeaderboardState) -> bool {
    let last = if old.states@.len() > 0 { (old.states@.len() - 1) as usize } else { 0usize };
    let replaced = match old.current_index(last) {
        Some(k) => old.states@[k].round == s.round,
        None => false,
    };
    &&& new.skip == old.skip
    &&& new.cycle == old.cycle
    &&& new.broadcast_type == old.broadcast_type
    &&& new.states@ == if replaced { old.states@.drop_last().push(s) } else { old.states@.push(s) }
}

fn copy_players(players: &Vec<&Player>) -> (r: Vec<Player>)
    ensures
        copies(r@, derefs(players@)),
{
    let mut out: Vec<Player> = Vec::new();
    let mut i: usize = 0;
    while i < players.len()
        invariant
            i <= players@.len(),
            copies(out@, derefs(players@).take(i as int)),
        decreases players@.len() - i,
    {
        let ghost before = out@;
        out.push(players[i].duplicate());
        proof {
            let t = derefs(players@).take(i + 1);
            assert forall|k: int| 0 <= k < out@.len() implies copy_of(#[trigger] out@[k], t[k]) by {
                if k < before.len() {
                    assert(out@[k] == before[k]);
                }
            }
        }
        i = i + 1;
    }
    proof {
        assert(derefs(players@).take(players@.len() as int) =~= derefs(players@));
    }
    out
}

proof fn lemma_can_count_all(cur: Seq<Player>, players: Seq<Player>, before: Seq<Player>, prev: Seq<Player>)
    requires
        copies(cur, players),
        copies(before, prev),
        board_ready(players, prev),
    ensures
        forall|i: int| 0 <= i < cur.len() ==> #[trigger] can_count(cur[i], before),
        forall|i: int| 0 <= i < before.len() ==> round_fits((#[trigger] before[i]).rs()),
{
    assert forall|i: int| 0 <= i < cur.len() implies #[trigger] can_count(cur[i], before) by {
        assert(can_count(players[i], prev));
        crate::rust_handler::lemma_can_count_copies(cur[i], players[i], before, prev);
    }
    assert forall|i: int| 0 <= i < before.len() implies round_fits((#[trigger] before[i]).rs()) by {
        assert(copy_of(before[i], prev[i]));
        assert(round_fits(prev[i].rs()));
    }
}

impl FlipUpVMixCoordinator {
    /// The players of the rounds before the one that is on.
    pub open spec fn previous(&self) -> Seq<Player> {
        crate::rust_handler::flatten_rounds(crate::rust_handler::before_round(
            self.handler_of().rounds(),
            self.handler_of().container_round() as int,
        ))
    }

    fn set_current_through(&mut self)
        requires
            old(self).ready(),
        ensures
            final(self).through() == #[verifier::truncate] (old(self).focused().hole_shown_up_until as u8),
            old(self).same_but_players(&*final(self), old(self).players()),
            final(self).sent() == old(self).sent(),
    {
        let through = #[verifier::truncate] (self.focused_player().hole_shown_up_until as u8);
        proof {
            assert(self.handler_of().rounds() =~= self.handler_of().rounds().update(
                self.handler_of().container_round() as int, self.players()));
        }
        self.current_through = through;
    }

    /// Adds the board of the round that is on, counted from copies of its
    /// players against copies of the earlier ones, and gives each player the
    /// total of their row (see `with_board_totals`).
    pub fn add_state_to_leaderboard(&mut self)
        requires
            old(self).ready(),
            board_ready(old(self).players(), old(self).previous()),
        ensures
            final(self).through() == #[verifier::truncate] (old(self).focused().hole_shown_up_until as u8),
            exists|s: LeaderboardState| #![trigger board_with(old(self).board(), final(self).board(), s)]
                counted_state(s, old(self).round(), old(self).players(), old(self).previous())
                && board_with(old(self).board(), final(self).board(), s),
            final(self).players() == with_board_totals(old(self).players(), final(self).board()),
            final(self).handler_of().rounds() == old(self).handler_of().rounds().update(
                old(self).handler_of().container_round() as int, final(self).players()),
            final(self).handler_of().container_round() == old(self).handler_of().container_round(),
            final(self).handler_of().round() == old(self).handler_of().round(),
            final(self).handler_of().chosen() == old(self).handler_of().chosen(),
            final(self).handler_of().division_list() == old(self).handler_of().division_list(),
            final(self).handler_of().round_id_lists() == old(self).handler_of().round_id_lists(),
            final(self).handler_of().group_lists() == old(self).handler_of().group_lists(),
            final(self).manager() == old(self).manager(),
            final(self).featured_manager() == old(self).featured_manager(),
            final(self).division() == old(self).division(),
            final(self).divisions() == old(self).divisions(),
            final(self).round() == old(self).round(),
            final(self).board_round() == old(self).board_round(),
            final(self).featured_hole_number() == old(self).featured_hole_number(),
            final(self).featured_count() == old(self).featured_count(),
            final(self).next_group_id() == old(self).next_group_id(),
            final(self).animated_index() == old(self).animated_index(),
            final(self).sent() == old(self).sent(),
    {
        self.set_current_through();
        proof {
            assert(self.handler_of().rounds() =~= old(self).handler_of().rounds());
        }
        let ghost players0 = self.players();
        let ghost prev0 = self.previous();
        assert(players0 == old(self).players());
        assert(prev0 == old(self).previous());
        let current = copy_players(&self.available_players());
        let previous = copy_players(&self.previous_rounds_players());
        proof {
            lemma_can_count_all(current@, players0, previous@, prev0);
        }
        let ghost cv = current@;
        let ghost pv = previous@;
        let state = LeaderboardState::new(self.round_ind, current, previous);
        proof {
            assert(counted_state(state, self.round(), players0, prev0)) by {
                assert(copies(cv, players0) && copies(pv, prev0));
            }
        }
        let ghost board0 = self.leaderboard;
        self.leaderboard.add_state(state);
        assert(board_with(board0, self.leaderboard, state));
        let board = &self.leaderboard;
        proof {
            assert(board.states@.len() > 0);
        }
        let n: usize;
        let mut ids: Vec<String> = Vec::new();
        let mut totals: Vec<Option<isize>> = Vec::new();
        {
            let players = self.available_players();
            n = players.len();
            let mut i: usize = 0;
            while i < n
                invariant
                    i <= n,
                    n == players@.len(),
                    derefs(players@) == players0,
                    board.states@.len() > 0,
                    ids@.len() == i,
                    totals@.len() == i,
                    forall|j: int| 0 <= j < i ==> (#[trigger] ids@[j])@ == players0[j].player_id@,
                    forall|j: int| 0 <= j < i ==> #[trigger] totals@[j] == board_total(*board, players0[j]),
                decreases n - i,
            {
                let p: &Player = players[i];
                assert(*p == players0[i as int]);
                let row = board.get_lb_player(p);
                let t = match row {
                    Some(r) => Some(r.total_score),
                    None => None,
                };
                ids.push(p.player_id.clone());
                totals.push(t);
                i = i + 1;
            }
        }
        let ghost board1 = self.leaderboard;
        let ghost s1 = *self;
        proof {
            assert(self.handler_of().rounds() =~= self.handler_of().rounds().update(
                self.handler_of().container_round() as int, self.players()));
            assert forall|j: int| 0 <= j < n implies #[trigger] self.players()[j] == with_total_at(players0, board1, j, 0) by {
            }
        }
        let mut i: usize = 0;
        while i < n
            invariant
                i <= n,
                n == players0.len(),
                ids@.len() == n,
                totals@.len() == n,
                board1 == s1.board(),
                players0 == s1.players(),
                s1.handler_of().container_round() < s1.handler_of().rounds().len(),
                forall|j: int| 0 <= j < n ==> (#[trigger] ids@[j])@ == players0[j].player_id@,
                forall|j: int| 0 <= j < n ==> #[trigger] totals@[j] == board_total(board1, players0[j]),
                s1.same_but_players(&*self, self.players()),
                self.sent() == s1.sent(),
                self.through() == s1.through(),
                self.players().len() == n,
                forall|j: int| 0 <= j < n ==> #[trigger] self.players()[j] == with_total_at(players0, board1, j, i as int),
            decreases n - i,
        {
            let ghost cur = self.players();
            let ghost before = *self;
            proof {
                lemma_first_same_ids(cur, players0, ids@[i as int]@, 0);
                crate::queue::lemma_first_player(players0, ids@[i as int]@, 0);
            }
            match totals[i] {
                Some(t) => {
                    let found = self.find_player_mut(ids[i].as_str());
                    match found {
                        Some(p) => {
                            p.total_score = t;
                        },
                        None => {},
                    }
                },
                None => {},
            }
            proof {
                let k_opt = first_player_with_id(players0, ids@[i as int]@, 0);
                assert(self.handler_of().rounds() =~= s1.handler_of().rounds().update(
                    s1.handler_of().container_round() as int, self.players()));
                assert(totals@[i as int] is None || k_opt is None ==> self.players() == cur);
                assert(totals@[i as int] is Some && k_opt is Some ==> self.players() == cur.update(k_opt->0, Player { total_score: totals@[i as int]->0, ..cur[k_opt->0] }));
                assert forall|j: int| 0 <= j < n implies #[trigger] self.players()[j] == with_total_at(players0, board1, j, i + 1) by {
                    let id = players0[j].player_id@;
                    assert(players0[i as int].player_id@ == ids@[i as int]@);
                    if first_player_with_id(players0, id, 0) == Some(j) && id == ids@[i as int]@ && totals@[i as int] is Some {
                        assert(last_board_total(players0, board1, id, i + 1) == totals@[i as int]);
                    } else {
                        assert(self.players()[j] == cur[j]);
                    }
                }
            }
            i = i + 1;
        }
        proof {
            assert(self.players() =~= with_board_totals(players0, board1));
            assert(counted_state(state, old(self).round(), old(self).players(), old(self).previous()));
            assert(board_with(old(self).board(), self.board(), state));
        }
    }
}

proof fn lemma_first_same_ids(a: Seq<Player>, b: Seq<Player>, id: Seq<char>, from: int)
    requires
        a.len() == b.len(),
        forall|j: int| 0 <= j < a.len() ==> (#[trigger] a[j]).player_id@ == b[j].player_id@,
        0 <= from,
    ensures
        first_player_with_id(a, id, from) == first_player_with_id(b, id, from),
    decreases a.len() - from,
{
    if from < a.len() {
        assert(a[from].player_id@ == b[from].player_id@);
        lemma_first_same_ids(a, b, id, from + 1);
    }
}

/// The leaderboard row calls of an emptied row at position `pos` (see `Player::set_lb`).
pub open spec fn blank_row(pos: usize) -> Seq<(VMixFunction, Option<LeaderBoardProperty>, Option<Seq<char>>)> {
    seq![
        (VMixFunction::SetText, Some(LeaderBoardProperty::Name(pos)), Some(Seq::<char>::empty())),
        (VMixFunction::SetImage, Some(LeaderBoardProperty::HotRound(pos)), Some(Image::Nothing.location())),
        (VMixFunction::SetImage, Some(LeaderBoardProperty::Arrow { pos }), Some(Image::Nothing.location())),
        (VMixFunction::SetText, Some(LeaderBoardProperty::RoundScore(pos)), Some(Seq::<char>::empty())),
        (VMixFunction::SetText, Some(LeaderBoardProperty::Position { pos }), Some(Seq::<char>::empty())),
        (VMixFunction::SetText, Some(LeaderBoardProperty::TotalScore { pos }), Some(Seq::<char>::empty())),
        (VMixFunction::SetText, Some(LeaderBoardProperty::Move { pos }), Some(RankUpDown::Same.move_text())),
        (VMixFunction::SetImage, Some(LeaderBoardProperty::Arrow { pos }), Some(RankUpDown::Same.arrow_image())),
        (VMixFunction::SetText, Some(LeaderBoardProperty::Thru(pos)), Some(Seq::<char>::empty())),
    ]
}

/// The calls that empty the rows at positions `0` to `n - 1`.
pub open spec fn blank_rows(n: nat) -> Seq<(VMixFunction, Option<LeaderBoardProperty>, Option<Seq<char>>)>
    decreases n,
{
    if n == 0 {
        seq![]
    } else {
        blank_rows((n - 1) as nat) + blank_row((n - 1) as usize)
    }
}

/// The commands that show the board of round `round` for a division: page
/// `skip` of the big board, then the small board on the cycling title or its
/// own (see `Leaderboard::send_to_vmix`).
pub open spec fn board_cmds(board: Leaderboard, division: Division, round: usize) -> Seq<Seq<char>> {
    let cur = board.states@[board.current_index(round)->0];
    let prev = board.state_at(board.previous_index(round));
    let prevf = prev_fn(prev, division);
    let len = in_division(cur.players@, division).len() as int;
    let calls = little_board(cur, division, prev);
    part_cmds(board_calls(cur, division, prevf, board.skip * 10, page_len(len, board.skip * 10)) + seq![checkin_call(division, cur.round)])
        + if board.cycle { part_cmds(cycled_parts(calls)) } else { part_cmds(calls) }
}

/// Whether a player's board rows can be shown: the latest holes and the short name.
pub open spec fn row_showable(p: Player) -> bool {
    &&& latest_showable(p.rs(), p.results.start_at_hole)
    &&& shortenable_name(p.name@)
}

/// Whether every state of a board can be shown.
pub open spec fn board_showable(board: Leaderboard) -> bool {
    &&& forall|i: int| 0 <= i < board.states@.len() ==> #[trigger] state_showable(board.states@[i])
    &&& forall|i: int| 0 <= i < board.states@.len() ==> #[trigger] board.states@[i].round < usize::MAX
    &&& board.skip * 10 <= usize::MAX
}

proof fn lemma_state_showable(s: LeaderboardState, round: usize, players: Seq<Player>, prev: Seq<Player>)
    requires
        counted_state(s, round, players, prev),
        forall|i: int| 0 <= i < players.len() ==> #[trigger] row_showable(players[i]),
    ensures
        state_showable(s),
{
    let (cur, before) = choose|cur: Seq<Player>, before: Seq<Player>| #![trigger copies(cur, players), copies(before, prev)]
        copies(cur, players) && copies(before, prev) && s.players@ == stable_sorted(cur.map_values(|p: Player| counted(p, before)));
    let m = cur.map_values(|p: Player| counted(p, before));
    crate::sort::lemma_stable_sorted(m);
    stable_sorted(m).to_multiset_ensures();
    m.to_multiset_ensures();
    assert(stable_sorted(m).to_multiset() =~= m.to_multiset());
    assert forall|i: int| #![trigger s.players@[i]] 0 <= i < s.players@.len() implies holes_showable(s.players@[i]) && shortenable_name(s.players@[i].name@) by {
        let x = s.players@[i];
        assert(stable_sorted(m).contains(x));
        assert(stable_sorted(m).to_multiset().count(x) > 0);
        assert(m.to_multiset().count(x) > 0);
        assert(m.contains(x));
        let j = choose|j: int| 0 <= j < m.len() && m[j] == x;
        assert(copy_of(cur[j], players[j]));
        assert(row_showable(players[j]));
        crate::player::lemma_latest_showable(x.results);
    }
}

impl FlipUpVMixCoordinator {
    /// The calls that empty the leaderboard rows at positions `0` to `idx`.
    fn clear_lb(idx: usize) -> (r: Vec<VMixInterfacer<LeaderBoardProperty>>)
        requires
            idx < usize::MAX,
        ensures
            parts_of(r@) == blank_rows((idx + 1) as nat),
    {
        let mut new_player = Player::null_player();
        let mut r_v: Vec<VMixInterfacer<LeaderBoardProperty>> = Vec::new();
        let mut i: usize = 0;
        while i <= idx
            invariant
                i <= idx + 1,
                idx < usize::MAX,
                new_player.name@ == Seq::<char>::empty(),
                new_player.rank == RankUpDown::Same,
                new_player.lb_pos == 0,
                parts_of(r_v@) =~= blank_rows(i as nat),
            decreases idx + 1 - i,
        {
            new_player.position = i;
            let mut row = new_player.set_lb();
            let ghost before = r_v@;
            r_v.append(&mut row);
            proof {
                assert(parts_of(r_v@) =~= parts_of(before) + blank_row(i));
            }
            i = i + 1;
        }
        r_v
    }

    /// Sends the calls of a board: the big board, then the small one.
    fn send_board(&mut self, calls: LeaderboardCalls)
        ensures
            final(self).sent() == old(self).sent() + part_cmds(parts_of(calls.big@)) + match calls.little {
                LittleLeaderboard::Top6(v) => part_cmds(parts_of(v@)),
                LittleLeaderboard::Featured(v) => part_cmds(parts_of(v@)),
                LittleLeaderboard::Cycled(v) => part_cmds(parts_of(v@)),
            },
            final(self).handler_of() == old(self).handler_of(),
            final(self).manager() == old(self).manager(),
            final(self).featured_manager() == old(self).featured_manager(),
            final(self).board() == old(self).board(),
            final(self).division() == old(self).division(),
            final(self).divisions() == old(self).divisions(),
            final(self).round() == old(self).round(),
            final(self).board_round() == old(self).board_round(),
            final(self).through() == old(self).through(),
            final(self).featured_hole_number() == old(self).featured_hole_number(),
            final(self).featured_count() == old(self).featured_count(),
            final(self).next_group_id() == old(self).next_group_id(),
            final(self).animated_index() == old(self).animated_index(),
    {
        self.queue_add(&calls.big);
        match &calls.little {
            LittleLeaderboard::Top6(v) => self.queue_add(v),
            LittleLeaderboard::Featured(v) => self.queue_add(v),
            LittleLeaderboard::Cycled(v) => self.queue_add(v),
        }
    }

    /// Whether `other` is `self` after the board `board` was shown (see
    /// `set_leaderboard`): past the last hole nothing happens; else the board
    /// of the round that is on is added, the players take their totals from
    /// it, the rows are emptied and the board of the round shown is sent.
    pub open spec fn board_shown(&self, other: &Self, board: Leaderboard) -> bool {
        &&& self.same_setup(other)
        &&& self.focused().hole_shown_up_until > 18 ==> {
            &&& other.board() == board
            &&& other.handler_of().rounds() == self.handler_of().rounds()
            &&& other.sent() == self.sent()
            &&& other.through() == self.through()
        }
        &&& self.focused().hole_shown_up_until <= 18 ==> {
            &&& other.through() == self.focused().hole_shown_up_until as u8
            &&& exists|s: LeaderboardState| #![trigger board_with(board, other.board(), s)]
                counted_state(s, self.round(), self.players(), self.previous()) && board_with(board, other.board(), s)
            &&& other.players() == with_board_totals(self.players(), other.board())
            &&& other.handler_of().rounds() == self.handler_of().rounds().update(
                self.handler_of().container_round() as int, other.players())
            &&& other.sent() == self.sent() + part_cmds(blank_rows(11)) + board_cmds(other.board(), self.division(), self.board_round())
        }
    }

    /// Shows the leaderboard of the division in view, where the player in
    /// focus is not past the last hole: the board of the round that is on is
    /// added (see `add_state_to_leaderboard`), the rows are emptied, then the
    /// board of the round shown is sent.
    pub fn set_leaderboard(&mut self, lb_start_ind: Option<usize>)
        requires
            old(self).ready(),
            old(self).focused().hole_shown_up_until <= 18 ==> {
                &&& board_ready(old(self).players(), old(self).previous())
                &&& board_showable(old(self).board())
                &&& old(self).round() < usize::MAX
                &&& forall|i: int| 0 <= i < old(self).players().len() ==> #[trigger] row_showable(old(self).players()[i])
            },
        ensures
            old(self).board_shown(&*final(self), old(self).board()),
    {
        if self.current_hole() <= 18 {
            self.add_state_to_leaderboard();
            proof {
                let s = choose|s: LeaderboardState| #![trigger board_with(old(self).board(), self.board(), s)]
                    counted_state(s, old(self).round(), old(self).players(), old(self).previous())
                    && board_with(old(self).board(), self.board(), s);
                lemma_state_showable(s, old(self).round(), old(self).players(), old(self).previous());
                assert forall|i: int| 0 <= i < self.board().states@.len() implies #[trigger] state_showable(self.board().states@[i])
                    && self.board().states@[i].round < usize::MAX by {
                    if i < old(self).board().states@.len() && self.board().states@[i] == old(self).board().states@[i] {
                        assert(state_showable(old(self).board().states@[i]));
                    }
                }
            }
            let clear = FlipUpVMixCoordinator::clear_lb(10);
            self.queue_add(&clear);
            let calls = self.leaderboard.send_to_vmix(&self.leaderboard_division, self.leaderboard_round, false);
            self.send_board(calls);
            proof {
                assert(self.sent() =~= old(self).sent() + part_cmds(blank_rows(11))
                    + board_cmds(self.board(), old(self).division(), old(self).board_round()));
            }
        }
    }
}

impl FlipUpVMixCoordinator {
    /// What showing a board needs: see `set_leaderboard`.
    pub open spec fn can_show(&self, board: Leaderboard) -> bool {
        &&& self.ready()
        &&& self.focused().hole_shown_up_until <= 18 ==> {
            &&& board_ready(self.players(), self.previous())
            &&& board_showable(board)
            &&& self.round() < usize::MAX
            &&& forall|i: int| 0 <= i < self.players().len() ==> #[trigger] row_showable(self.players()[i])
        }
    }

    fn set_skip(&mut self, skip: usize)
        ensures
            final(self).board() == (Leaderboard { skip, ..old(self).board() }),
            old(self).same_setup(&*final(self)),
            final(self).handler_of() == old(self).handler_of(),
            final(self).sent() == old(self).sent(),
            final(self).through() == old(self).through(),
    {
        self.leaderboard.skip = skip;
    }

    /// Shows the next page of the big board.
    pub fn increase_leaderboard_skip(&mut self)
        requires
            old(self).board().skip < usize::MAX,
            old(self).can_show(Leaderboard { skip: (old(self).board().skip + 1) as usize, ..old(self).board() }),
        ensures
            old(self).board_shown(&*final(self), Leaderboard { skip: (old(self).board().skip + 1) as usize, ..old(self).board() }),
    {
        let skip = self.leaderboard.skip + 1;
        self.set_skip(skip);
        self.set_leaderboard(None);
    }

    /// Shows the page before of the big board (the first stays the first).
    pub fn decrease_leaderboard_skip(&mut self)
        requires
            old(self).can_show(Leaderboard { skip: if old(self).board().skip > 0 { (old(self).board().skip - 1) as usize } else { 0 }, ..old(self).board() }),
        ensures
            old(self).board_shown(&*final(self), Leaderboard {
                skip: if old(self).board().skip > 0 { (old(self).board().skip - 1) as usize } else { 0 },
                ..old(self).board()
            }),
    {
        if self.leaderboard.skip > 0 {
            let skip = self.leaderboard.skip - 1;
            self.set_skip(skip);
        } else {
            self.set_skip(0);
        }
        self.set_leaderboard(None);
    }

    /// Shows the first page of the big board.
    pub fn reset_leaderboard_skip(&mut self)
        requires
            old(self).can_show(Leaderboard { skip: 0, ..old(self).board() }),
        ensures
            old(self).board_shown(&*final(self), Leaderboard { skip: 0, ..old(self).board() }),
    {
        self.set_skip(0);
        self.set_leaderboard(None);
    }
}

proof fn lemma_focus_kept(a: FlipUpVMixCoordinator, b: FlipUpVMixCoordinator, q: Player)
    requires
        a.ready(),
        a.same_setup(&b),
        b.handler_of().rounds() == a.handler_of().rounds().update(a.handler_of().container_round() as int, a.players().update(a.focus_index(), q)),
        q.player_id@ == a.focused().player_id@,
    ensures
        b.ready(),
        b.players() == a.players().update(a.focus_index(), q),
        b.focus_index() == a.focus_index(),
        b.focused() == q,
{
    crate::queue::lemma_first_player(a.players(), a.focus_id(), 0);
    let p2 = a.players().update(a.focus_index(), q);
    assert(b.players() == p2);
    assert forall|j: int| 0 <= j < p2.len() implies (#[trigger] p2[j]).player_id@ == a.players()[j].player_id@ by {
    }
    lemma_first_same_ids(p2, a.players(), a.focus_id(), 0);
}

/// The throw field call for a number of throws.
pub open spec fn throw_call(throws: u8) -> (VMixFunction, Option<VMixPlayerInfo>, Option<Seq<char>>) {
    (VMixFunction::SetText, Some(VMixPlayerInfo::Throw(0)), Some(nat_to_dec(throws as nat)))
}

impl FlipUpVMixCoordinator {
    /// Whether `other` is `self` with the player in focus changed to `q` and
    /// nothing else but the commands sent.
    pub open spec fn focus_changed(&self, other: &Self, q: Player) -> bool {
        &&& self.same_but_players(other, self.players().update(self.focus_index(), q))
        &&& other.through() == self.through()
    }

    /// Sets the throws of the player in focus and shows them.
    fn show_throws(&mut self, throws: u8)
        requires
            old(self).ready(),
            latest_showable(old(self).focused().rs(), old(self).focused().results.start_at_hole),
        ensures
            old(self).focus_changed(&*final(self), Player { throws, ..old(self).focused() }),
            final(self).ready(),
            final(self).focused() == (Player { throws, ..old(self).focused() }),
            final(self).sent() == old(self).sent()
                + part_cmds(current_view(final(self).focused(), seq![throw_call(throws)]))
                + part_cmds(seq![throw_call(throws)]),
    {
        let ghost q = Player { throws, ..old(self).focused() };
        {
            let p = self.focused_player_mut();
            p.throws = throws;
        }
        proof {
            lemma_focus_kept(*old(self), *self, q);
        }
        let mut f: Vec<VMixInterfacer<VMixPlayerInfo>> = Vec::new();
        f.push(self.focused_player().set_throw());
        proof {
            crate::player::lemma_latest_showable(self.focused().results);
            assert(parts_of(f@) =~= seq![throw_call(throws)]);
        }
        let cur = self.focused_player().set_all_current_player_values(f.as_slice());
        self.queue_add(&cur);
        self.queue_add(&f);
    }

    /// One more throw for the player in focus.
    pub fn increase_throw(&mut self)
        requires
            old(self).ready(),
            old(self).focused().throws < u8::MAX,
            latest_showable(old(self).focused().rs(), old(self).focused().results.start_at_hole),
        ensures
            ({
                let q = Player { throws: (old(self).focused().throws + 1) as u8, ..old(self).focused() };
                &&& old(self).focus_changed(&*final(self), q)
                &&& final(self).sent() == old(self).sent()
                    + part_cmds(current_view(q, seq![throw_call(q.throws)])) + part_cmds(seq![throw_call(q.throws)])
            }),
    {
        let throws = self.focused_player().throws + 1;
        self.show_throws(throws);
    }

    /// One throw less for the player in focus, where there were any.
    pub fn decrease_throw(&mut self)
        requires
            old(self).ready(),
            latest_showable(old(self).focused().rs(), old(self).focused().results.start_at_hole),
        ensures
            old(self).focused().throws == 0 ==> *final(self) == *old(self),
            old(self).focused().throws != 0 ==> {
                let q = Player { throws: (old(self).focused().throws - 1) as u8, ..old(self).focused() };
                &&& old(self).focus_changed(&*final(self), q)
                &&& final(self).sent() == old(self).sent()
                    + part_cmds(current_view(q, seq![throw_call(q.throws)])) + part_cmds(seq![throw_call(q.throws)])
            },
    {
        if self.focused_player().throws != 0 {
            let throws = self.focused_player().throws - 1;
            self.show_throws(throws);
        }
    }

    /// Takes back the last hole shown of the player in focus (see `Player::revert_hole_score`).
    pub fn revert_score(&mut self)
        requires
            old(self).ready(),
            can_revert(old(self).focused()),
        ensures
            exists|q: Player| #![trigger reverted(q, old(self).focused())]
                reverted(q, old(self).focused()) && old(self).focus_changed(&*final(self), q)
                && final(self).sent() == old(self).sent() + part_cmds(revert_calls(q, old(self).focused())),
    {
        proof {
            crate::queue::lemma_first_player(old(self).players(), old(self).focus_id(), 0);
        }
        let f = {
            let p = self.focused_player_mut();
            p.revert_hole_score()
        };
        let ghost q = self.players()[old(self).focus_index()];
        proof {
            assert(reverted(q, old(self).focused()));
            assert(parts_of(f@) == revert_calls(q, old(self).focused()));
        }
        self.queue_add(&f);
    }

    /// Empties the scorecard of the player in focus, and the hole looked at.
    pub fn reset_score(&mut self)
        requires
            old(self).ready(),
        ensures
            final(self).through() == 0,
            exists|q: Player| #![trigger reset(q, old(self).focused())]
                reset(q, old(self).focused()) && old(self).same_but_players(&*final(self), old(self).players().update(old(self).focus_index(), q))
                && final(self).sent() == old(self).sent() + part_cmds(reset_calls(old(self).focused())),
    {
        proof {
            crate::queue::lemma_first_player(old(self).players(), old(self).focus_id(), 0);
        }
        self.current_through = 0;
        let f = {
            let p = self.focused_player_mut();
            p.reset_scores()
        };
        let ghost q = self.players()[old(self).focus_index()];
        proof {
            assert(reset(q, old(self).focused()));
        }
        self.queue_add(&f);
    }

    /// Empties the scorecard of the player in focus and the rows of the leaderboard.
    pub fn reset_scores(&mut self)
        requires
            old(self).ready(),
        ensures
            final(self).through() == old(self).through(),
            exists|q: Player| #![trigger reset(q, old(self).focused())]
                reset(q, old(self).focused()) && old(self).focus_changed(&*final(self), q)
                && final(self).sent() == old(self).sent() + part_cmds(reset_calls(old(self).focused())) + part_cmds(blank_rows(11)),
    {
        proof {
            crate::queue::lemma_first_player(old(self).players(), old(self).focus_id(), 0);
        }
        let return_vec: Vec<VMixInterfacer<VMixPlayerInfo>> = Vec::new();
        let actions = {
            let p = self.focused_player_mut();
            p.reset_scores()
        };
        let ghost q = self.players()[old(self).focus_index()];
        proof {
            assert(reset(q, old(self).focused()));
        }
        self.queue_add(&actions);
        let clear = FlipUpVMixCoordinator::clear_lb(10);
        self.queue_add(&clear);
        self.queue_add(&return_vec);
        proof {
            assert(self.sent() =~= old(self).sent() + part_cmds(reset_calls(old(self).focused())) + part_cmds(blank_rows(11)));
        }
    }
}

/// The scorecard calls that show a player's move on the board and the flame
/// of the best round (see `Player::add_lb_things`).
pub open spec fn lb_things_calls(board: Leaderboard, p: Player) -> Seq<(VMixFunction, Option<VMixPlayerInfo>, Option<Seq<char>>)> {
    let (m, hot, _, _) = shown_row(board, p);
    seq![
        (VMixFunction::SetImage, Some(VMixPlayerInfo::PositionArrow(0)), Some(movement_image(m).location())),
        (VMixFunction::SetText, Some(VMixPlayerInfo::PositionMove(0)), Some(movement_text(m))),
        (VMixFunction::SetImage, Some(VMixPlayerInfo::HotRound(0)),
            Some(if hot { Image::Flames.location() } else { Image::Nothing.location() })),
    ]
}

proof fn lemma_board_totals_keep(players: Seq<Player>, board: Leaderboard, j: int)
    requires
        0 <= j < players.len(),
    ensures
        with_board_totals(players, board)[j] == (Player { total_score: with_board_totals(players, board)[j].total_score, ..players[j] }),
{
}

impl FlipUpVMixCoordinator {
    /// What scoring the hole in view needs, where throws were entered and the
    /// last hole is not reached: the hole can be scored, and afterwards the
    /// players can be counted and the latest holes shown.
    pub open spec fn can_score_focused(&self) -> bool {
        let b = self.focused();
        &&& self.ready()
        &&& (b.throws != 0 && b.hole_shown_up_until <= 17) ==> {
            &&& can_increase(b)
            &&& latest_showable(scored_rs(b), b.results.start_at_hole)
            &&& forall|q: Player| #[trigger] increased(q, b) ==> board_ready(self.players().update(self.focus_index(), q), self.previous())
        }
    }

    /// Scores the hole in view for the player in focus, where throws were
    /// entered and the last hole is not reached: the scorecard is updated, the
    /// board of the round is added, and the player's move is shown.
    pub fn increase_score(&mut self) -> (r: Result<(), Error>)
        requires
            old(self).can_score_focused(),
        ensures
            r is Ok,
            !(old(self).focused().throws != 0 && old(self).focused().hole_shown_up_until <= 17) ==> *final(self) == *old(self),
            (old(self).focused().throws != 0 && old(self).focused().hole_shown_up_until <= 17) ==> {
                let b = old(self).focused();
                let k = old(self).focus_index();
                &&& old(self).same_setup(&*final(self))
                &&& final(self).ready()
                &&& exists|q: Player, s: LeaderboardState| #![trigger increased(q, b), board_with(old(self).board(), final(self).board(), s)]
                    increased(q, b)
                    && counted_state(s, old(self).round(), old(self).players().update(k, q), old(self).previous())
                    && board_with(old(self).board(), final(self).board(), s)
                    && final(self).players() == with_board_totals(old(self).players().update(k, q), final(self).board())
                    && final(self).through() == q.hole_shown_up_until as u8
                    && final(self).sent() == old(self).sent()
                        + part_cmds(increase_calls(q, b) + lb_things_calls(final(self).board(), final(self).focused()))
                        + part_cmds(current_view(final(self).focused(), increase_calls(q, b))
                            + current_calls(lb_things_calls(final(self).board(), final(self).focused())))
            },
    {
        let go = {
            let p = self.focused_player();
            p.throws != 0 && p.hole_shown_up_until <= 17
        };
        if go {
            proof {
                crate::queue::lemma_first_player(old(self).players(), old(self).focus_id(), 0);
            }
            let res = {
                let p = self.focused_player_mut();
                p.increase_score()
            };
            let ghost q = self.players()[old(self).focus_index()];
            let ghost mid = *self;
            proof {
                assert(increased(q, old(self).focused()));
                lemma_focus_kept(*old(self), mid, q);
                assert(mid.previous() == old(self).previous()) by {
                    assert(mid.handler_of().rounds().len() == old(self).handler_of().rounds().len());
                    assert(crate::rust_handler::before_round(mid.handler_of().rounds(), mid.handler_of().container_round() as int)
                        =~= crate::rust_handler::before_round(old(self).handler_of().rounds(), old(self).handler_of().container_round() as int));
                }
            }
            let mut f = match res {
                Ok(v) => v,
                Err(e) => {
                    proof {
                        assert(false);
                    }
                    return Err(e);
                },
            };
            self.add_state_to_leaderboard();
            let ghost p2 = self.focused();
            proof {
                lemma_first_same_ids(self.players(), mid.players(), mid.focus_id(), 0);
                crate::queue::lemma_first_player(mid.players(), mid.focus_id(), 0);
                lemma_board_totals_keep(mid.players(), self.board(), mid.focus_index());
                assert(self.ready());
                assert(p2.rs() == q.rs());
                crate::player::lemma_latest_showable(p2.results);
            }
            let mut lb_things = self.focused_player().add_lb_things(&self.leaderboard);
            let mut current = self.focused_player().set_all_current_player_values(f.as_slice());
            let mut more_current: Vec<VMixInterfacer<CurrentPlayer>> = Vec::new();
            let mut j: usize = 0;
            while j < lb_things.len()
                invariant
                    j <= lb_things@.len(),
                    parts_of(lb_things@) == lb_things_calls(self.board(), p2),
                    parts_of(more_current@) =~= current_calls(parts_of(lb_things@).take(j as int)),
                decreases lb_things@.len() - j,
            {
                let c = lb_things[j].duplicate();
                let ghost before = parts_of(more_current@);
                match c.into_current_player() {
                    Some(x) => more_current.push(x),
                    None => {},
                }
                proof {
                    let t = parts_of(lb_things@).take(j + 1);
                    assert(t.drop_last() =~= parts_of(lb_things@).take(j as int));
                    assert(t.last() == lb_things@[j as int].parts());
                }
                j = j + 1;
            }
            proof {
                assert(parts_of(lb_things@).take(lb_things@.len() as int) =~= parts_of(lb_things@));
            }
            let ghost fv = parts_of(f@);
            let ghost cv = parts_of(current@);
            current.append(&mut more_current);
            f.append(&mut lb_things);
            self.queue_add(&f);
            self.queue_add(&current);
            proof {
                let s = choose|s: LeaderboardState| #![trigger board_with(old(self).board(), self.board(), s)]
                    counted_state(s, old(self).round(), mid.players(), mid.previous()) && board_with(mid.board(), self.board(), s);
                assert(counted_state(s, old(self).round(), old(self).players().update(old(self).focus_index(), q), old(self).previous()));
                assert(parts_of(f@) =~= fv + lb_things_calls(self.board(), p2));
                assert(self.sent() =~= old(self).sent()
                    + part_cmds(increase_calls(q, old(self).focused()) + lb_things_calls(self.board(), self.focused()))
                    + part_cmds(current_view(self.focused(), increase_calls(q, old(self).focused()))
                        + current_calls(lb_things_calls(self.board(), self.focused()))));
            }
        }
        Ok(())
    }
}

/// The clip calls of showing a hole's score: the running clip stops, then the
/// clip of the score (or the out-of-bounds clip) plays.
pub open spec fn clip_calls(h: HoleResult, ob: bool) -> Seq<(VMixFunction, Option<VMixPlayerInfo>, Option<Seq<char>>)> {
    seq![
        (VMixFunction::OverlayInput4Off, None, None),
        (VMixFunction::OverlayInput4, None, Some(if ob { "50 ob.mov"@ } else { h.readable().mov() })),
    ]
}

/// The rounds of the events, round by round: for each round number, the id
/// of that round in each event that has it, event after event.
pub open spec fn rounds_by_number(lists: Seq<Seq<Seq<char>>>) -> Seq<Seq<Seq<char>>>
    decreases lists.len(),
{
    if lists.len() == 0 {
        seq![]
    } else {
        merged(rounds_by_number(lists.drop_last()), lists.last().map_values(|id: Seq<char>| seq![id]))
    }
}

impl FlipUpVMixCoordinator {
    /// Queues a player; where the player is of the round, sets the holes shown
    /// (those played, for none or zero) and the throws given.
    pub fn add_to_queue(&mut self, player_id: String, hole: Option<u8>, throw: Option<u8>)
        requires
            old(self).handler_of().container_round() < old(self).handler_of().rounds().len(),
            crate::queue::max_queue(old(self).manager().entries()) < usize::MAX,
        ensures
            final(self).manager().entries() == crate::queue::queued_with(
                old(self).manager().entries(), player_id@, crate::queue::max_queue(old(self).manager().entries()) + 1),
            final(self).manager().focus() == old(self).manager().focus(),
            final(self).board() == old(self).board(),
            final(self).sent() == old(self).sent(),
            final(self).through() == old(self).through(),
            match first_player_with_id(old(self).players(), player_id@, 0) {
                Some(k) => {
                    let p = old(self).players()[k];
                    let shown = match hole {
                        Some(h) => if h == 0 { done_results(p.rs()).len() as u8 } else { h },
                        None => done_results(p.rs()).len() as u8,
                    };
                    final(self).handler_of().rounds() == old(self).handler_of().rounds().update(
                        old(self).handler_of().container_round() as int,
                        old(self).players().update(k, Player {
                            hole_shown_up_until: shown as usize,
                            throws: match throw { Some(t) => t, None => p.throws },
                            ..p
                        }),
                    )
                },
                None => final(self).handler_of().rounds() == old(self).handler_of().rounds(),
            },
    {
        proof {
            assert(self.handler_of().rounds() =~= self.handler_of().rounds().update(
                self.handler_of().container_round() as int, self.players()));
        }
        match self.find_player_mut(player_id.as_str()) {
            Some(player) => {
                let shown: u8 = match hole {
                    Some(h) => if h == 0 { #[verifier::truncate] (player.amount_of_holes_finished() as u8) } else { h },
                    None => #[verifier::truncate] (player.amount_of_holes_finished() as u8),
                };
                player.hole_shown_up_until = shown as usize;
                match throw {
                    Some(t) => {
                        player.throws = t;
                    },
                    None => {},
                }
            },
            None => {},
        }
        self.player_manager.add_to_queue(player_id);
    }

    /// Shows the leaderboard of the division with the id of `div`, where there is one.
    pub fn set_div(&mut self, div: &Division)
        ensures
            match crate::handler::division_index(old(self).divisions(), div.id@, 0) {
                Some(k) => final(self).division() == old(self).divisions()[k],
                None => final(self).division() == old(self).division(),
            },
            final(self).divisions() == old(self).divisions(),
            final(self).handler_of() == old(self).handler_of(),
            final(self).manager() == old(self).manager(),
            final(self).board() == old(self).board(),
            final(self).sent() == old(self).sent(),
    {
        proof {
            crate::handler::lemma_division_index(self.all_divs@, div.id@, 0);
        }
        let mut i: usize = 0;
        while i < self.all_divs.len()
            invariant
                i <= self.all_divs@.len(),
                self.all_divs@ == old(self).all_divs@,
                self.leaderboard_division == old(self).leaderboard_division,
                self.handler == old(self).handler,
                self.player_manager == old(self).player_manager,
                self.leaderboard == old(self).leaderboard,
                self.vmix_queue == old(self).vmix_queue,
                self.all_divs == old(self).all_divs,
                crate::handler::division_index(self.all_divs@, div.id@, 0) == crate::handler::division_index(self.all_divs@, div.id@, i as int),
            decreases self.all_divs@.len() - i,
        {
            if crate::text::str_eq(self.all_divs[i].id.as_str(), div.id.as_str()) {
                self.leaderboard_division = self.all_divs[i].duplicate();
                return;
            }
            i = i + 1;
        }
    }

    /// The first division with the given id.
    pub fn find_division(&self, div_id: &str) -> (r: Option<Division>)
        ensures
            match crate::handler::division_index(self.handler_of().division_list(), div_id@, 0) {
                Some(k) => r matches Some(d) && crate::handler::division_view(d) == crate::handler::division_view(self.handler_of().division_list()[k]),
                None => r is None,
            },
    {
        let divs = self.handler.get_divisions();
        proof {
            crate::handler::lemma_division_index(divs@, div_id@, 0);
            let dl = self.handler_of().division_list();
            assert(divs@.len() == dl.map_values(|d: Division| crate::handler::division_view(d)).len());
            assert forall|i: int| 0 <= i < divs@.len() implies crate::handler::division_view(#[trigger] divs@[i]) == crate::handler::division_view(dl[i]) by {
                assert(divs@.map_values(|d: Division| crate::handler::division_view(d))[i] == dl.map_values(|d: Division| crate::handler::division_view(d))[i]);
            }
            crate::handler::lemma_division_index_views(divs@, dl, div_id@, 0);
        }
        let ghost dl = self.handler_of().division_list();
        let mut i: usize = 0;
        while i < divs.len()
            invariant
                i <= divs@.len(),
                dl == self.handler_of().division_list(),
                divs@.len() == dl.len(),
                forall|j: int| 0 <= j < divs@.len() ==> crate::handler::division_view(#[trigger] divs@[j]) == crate::handler::division_view(dl[j]),
                crate::handler::division_index(divs@, div_id@, 0) == crate::handler::division_index(dl, div_id@, 0),
                crate::handler::division_index(divs@, div_id@, 0) == crate::handler::division_index(divs@, div_id@, i as int),
            decreases divs@.len() - i,
        {
            if crate::text::str_eq(divs[i].id.as_str(), div_id) {
                proof {
                    assert(crate::handler::division_index(divs@, div_id@, i as int) == Some(i as int));
                    assert(crate::handler::division_view(divs@[i as int]) == crate::handler::division_view(self.handler_of().division_list()[i as int]));
                }
                return Some(divs[i].duplicate());
            }
            i = i + 1;
        }
        None
    }

    /// The first division with the given name.
    pub fn find_division_by_name(&self, div_name: &str) -> (r: Option<Division>)
        ensures
            match first_division_named(self.handler_of().division_list(), div_name@, 0) {
                Some(k) => r matches Some(d) && crate::handler::division_view(d) == crate::handler::division_view(self.handler_of().division_list()[k]),
                None => r is None,
            },
    {
        let divs = self.handler.get_divisions();
        proof {
            lemma_first_division_named(divs@, div_name@, 0);
            lemma_first_division_named_views(divs@, self.handler_of().division_list(), div_name@, 0);
        }
        let ghost dl = self.handler_of().division_list();
        let mut i: usize = 0;
        while i < divs.len()
            invariant
                i <= divs@.len(),
                dl == self.handler_of().division_list(),
                first_division_named(divs@, div_name@, 0) == first_division_named(dl, div_name@, 0),
                first_division_named(divs@, div_name@, 0) matches Some(k) ==> crate::handler::division_view(divs@[k]) == crate::handler::division_view(dl[k]),
                first_division_named(divs@, div_name@, 0) == first_division_named(divs@, div_name@, i as int),
            decreases divs@.len() - i,
        {
            if crate::text::str_eq(divs[i].name.as_str(), div_name) {
                proof {
                    assert(first_division_named(divs@, div_name@, i as int) == Some(i as int));
                }
                return Some(divs[i].duplicate());
            }
            i = i + 1;
        }
        None
    }

    /// Shows the name of the player in focus, and remembers the index of the
    /// given player among those of the round for the clips.
    pub fn set_player(&mut self, player: &str)
        requires
            old(self).ready(),
            first_player_with_id(old(self).players(), player@, 0) is Some,
        ensures
            final(self).animated_index() == first_player_with_id(old(self).players(), player@, 0)->0,
            final(self).handler_of() == old(self).handler_of(),
            final(self).manager() == old(self).manager(),
            final(self).board() == old(self).board(),
            final(self).sent() == old(self).sent() + part_cmds(seq![
                (VMixFunction::SetText, Some(VMixPlayerInfo::Name(0)), Some(old(self).focused().first_name@)),
                (VMixFunction::SetText, Some(VMixPlayerInfo::Surname(0)), Some(old(self).focused().surname@)),
            ]),
    {
        let players = self.available_players();
        proof {
            crate::queue::lemma_first_player(self.players(), player@, 0);
        }
        let mut index: usize = 0;
        let mut i: usize = 0;
        while i < players.len()
            invariant_except_break
                i <= players@.len(),
                derefs(players@) == self.players(),
                first_player_with_id(self.players(), player@, 0) is Some,
                first_player_with_id(self.players(), player@, 0) == first_player_with_id(self.players(), player@, i as int),
            ensures
                first_player_with_id(self.players(), player@, 0) == Some(index as int),
            decreases players@.len() - i,
        {
            if crate::text::str_eq(players[i].player_id.as_str(), player) {
                proof {
                    assert(self.players()[i as int] == *players@[i as int]);
                }
                index = i;
                break;
            }
            i = i + 1;
        }
        self.focused_player_index = index;
        let actions = self.focused_player().set_name();
        self.queue_add(&actions);
    }

    /// Plays the clip of the score shown of the player in focus (or the
    /// out-of-bounds clip, see `clip_played`).
    pub fn ob_anim(&mut self) -> (r: Result<(), Error>)
        requires
            old(self).ready(),
            can_show_in(old(self).focused().rs(), old(self).focused().hole_shown_up_until, old(self).focused().throws, old(self).focused().holes.holes@),
        ensures
            r is Ok,
            old(self).clip_played(&*final(self), true),
    {
        self.play_clip(true);
        Ok(())
    }

    /// Plays the clip of the score shown of the player in focus (see `clip_played`).
    pub fn play_animation(&mut self) -> (r: Result<(), Error>)
        requires
            old(self).ready(),
            can_show_in(old(self).focused().rs(), old(self).focused().hole_shown_up_until, old(self).focused().throws, old(self).focused().holes.holes@),
        ensures
            r is Ok,
            old(self).clip_played(&*final(self), false),
    {
        self.play_clip(false);
        Ok(())
    }

    /// Whether `other` is `self` after the clip of the score shown of the
    /// player in focus was played: the results shown are kept on the
    /// scorecard (see `Player::get_current_shown_score`).
    pub open spec fn clip_played(&self, other: &Self, ob: bool) -> bool {
        let b = self.focused();
        let h = shown_result_in(b.rs(), b.hole_shown_up_until, b.throws, b.holes.holes@);
        exists|q: Player| #![trigger self.focus_changed(other, q)]
            self.focus_changed(other, q) && same_player(q, b)
            && q.rs() == shown_results_in(b.rs(), b.hole_shown_up_until, b.throws, b.holes.holes@)
            && q.hole_shown_up_until == b.hole_shown_up_until && q.throws == b.throws
            && q.round_score == b.round_score && q.total_score == b.total_score && q.first_scored == b.first_scored
            && other.sent() == self.sent() + part_cmds(clip_calls(h, ob))
    }

    fn play_clip(&mut self, ob: bool)
        requires
            old(self).ready(),
            can_show_in(old(self).focused().rs(), old(self).focused().hole_shown_up_until, old(self).focused().throws, old(self).focused().holes.holes@),
        ensures
            old(self).clip_played(&*final(self), ob),
    {
        proof {
            crate::queue::lemma_first_player(old(self).players(), old(self).focus_id(), 0);
        }
        let score = {
            let p = self.focused_player_mut();
            p.get_current_shown_score()
        };
        let ghost q = self.players()[old(self).focus_index()];
        let calls = score.play_mov_vmix(self.focused_player_index, ob);
        let mut v: Vec<VMixInterfacer<VMixPlayerInfo>> = Vec::new();
        v.push(calls[0].duplicate());
        v.push(calls[1].duplicate());
        proof {
            let h = shown_result_in(old(self).focused().rs(), old(self).focused().hole_shown_up_until,
                old(self).focused().throws, old(self).focused().holes.holes@);
            assert(parts_of(v@) =~= clip_calls(h, ob));
        }
        self.queue_add(&v);
        proof {
            assert(old(self).focus_changed(&*self, q));
        }
    }

    /// For each round number, the ids of that round in the events that have it.
    pub open spec fn rounds_listing(&self) -> Seq<Seq<Seq<char>>> {
        rounds_by_number(id_views(self.handler_of().round_id_lists()))
    }

    /// For each round number, the ids of that round in the events that have it.
    fn round_listing(&self) -> (r: Vec<Vec<String>>)
        ensures
            views(r@).map_values(|v: Seq<String>| v.map_values(|s: String| s@)) == self.rounds_listing(),
    {
        let ghost lists = id_views(self.handler_of().round_id_lists());
        let table = self.handler.round_id_table();
        let mut round_ids: Vec<Vec<String>> = Vec::new();
        let mut e: usize = 0;
        while e < table.len()
            invariant
                e <= lists.len(),
                lists.len() == table@.len(),
                lists == id_views(table@),
                views(round_ids@).map_values(|v: Seq<String>| v.map_values(|s: String| s@)) =~= rounds_by_number(lists.take(e as int)),
            decreases lists.len() - e,
        {
            let ids = &table[e];
            let mut next: Vec<Vec<String>> = Vec::new();
            let mut k: usize = 0;
            while k < ids.len()
                invariant
                    k <= ids@.len(),
                    next@.len() == k,
                    forall|j: int| 0 <= j < k ==> (#[trigger] next@[j])@.map_values(|s: String| s@) == seq![ids@[j]@],
                decreases ids@.len() - k,
            {
                let mut one: Vec<String> = Vec::new();
                one.push(ids[k].clone());
                proof {
                    assert(one@.map_values(|s: String| s@) =~= seq![ids@[k as int]@]);
                }
                next.push(one);
                k = k + 1;
            }
            let ghost before = views(round_ids@);
            merge_rounds(&mut round_ids, next);
            proof {
                let f = |v: Seq<String>| v.map_values(|s: String| s@);
                let a = before;
                let b = views(next@);
                assert(lists.take(e + 1).drop_last() =~= lists.take(e as int));
                assert(lists.take(e + 1).last() == lists[e as int]);
                assert(lists[e as int] == ids@.map_values(|s: String| s@));
                let m = merged(a, b);
                assert forall|j: int| 0 <= j < m.len() implies #[trigger] m.map_values(f)[j] == merged(a.map_values(f), lists[e as int].map_values(|id: Seq<char>| seq![id]))[j] by {
                    let x: Seq<String> = if j < a.len() { a[j] } else { Seq::empty() };
                    let y: Seq<String> = if j < b.len() { b[j] } else { Seq::empty() };
                    assert((x + y).map_values(|s: String| s@) =~= x.map_values(|s: String| s@) + y.map_values(|s: String| s@));
                    if j < b.len() {
                        assert(b[j] == next@[j]@);
                    } else {
                        assert(y.map_values(|s: String| s@) =~= Seq::<Seq<char>>::empty());
                    }
                    if j >= a.len() {
                        assert(x.map_values(|s: String| s@) =~= Seq::<Seq<char>>::empty());
                    }
                }
                assert(m.map_values(f) =~= merged(a.map_values(f), lists[e as int].map_values(|id: Seq<char>| seq![id])));
            }
            e = e + 1;
        }
        proof {
            assert(lists.take(lists.len() as int) =~= lists);
        }
        round_ids
    }

    /// Whether every round is held by exactly three events (what the rounds'
    /// listing for the interface needs, see `dto_rounds`).
    pub fn rounds_in_threes(&self) -> (r: bool)
        ensures
            r == forall|i: int| 0 <= i < self.rounds_listing().len() ==> (#[trigger] self.rounds_listing()[i]).len() == 3,
    {
        let listing = self.round_listing();
        let ghost ids = self.rounds_listing();
        assert(views(listing@).len() == listing@.len());
        assert(views(listing@).map_values(|v: Seq<String>| v.map_values(|s: String| s@)).len() == listing@.len());
        let mut i: usize = 0;
        while i < listing.len()
            invariant
                i <= listing@.len(),
                views(listing@).map_values(|v: Seq<String>| v.map_values(|s: String| s@)) == ids,
                ids.len() == listing@.len(),
                ids == self.rounds_listing(),
                forall|j: int| 0 <= j < i ==> (#[trigger] ids[j]).len() == 3,
            decreases listing@.len() - i,
        {
            assert(views(listing@)[i as int] == listing@[i as int]@);
            assert(ids[i as int] == listing@[i as int]@.map_values(|s: String| s@));
            assert(ids[i as int].len() == listing@[i as int]@.len());
            if listing[i].len() != 3 {
                assert(ids == self.rounds_listing());
                assert(self.rounds_listing()[i as int].len() != 3);
                return false;
            }
            i = i + 1;
        }
        true
    }

    /// The rounds for the interface: for each round number the ids of that
    /// round in the events, and whether the leaderboard shows it.
    pub fn dto_rounds(&self) -> (r: Vec<crate::dto::SimpleRound>)
        requires
            forall|i: int| 0 <= i < self.rounds_listing().len()
                ==> (#[trigger] self.rounds_listing()[i]).len() == 3,
        ensures
            ({
                let ids = self.rounds_listing();
                &&& r@.len() == ids.len()
                &&& forall|i: int| 0 <= i < r@.len() ==> {
                    &&& (#[trigger] r@[i]).number == i + 1
                    &&& r@[i].id@.map_values(|s: String| s@) == ids[i]
                    &&& r@[i].selected == (i == self.board_round())
                }
            }),
    {
        let round_ids = self.round_listing();
        let ghost lists = id_views(self.handler_of().round_id_lists());
        let ghost ids = rounds_by_number(lists);
        assert(ids == self.rounds_listing());
        let mut out: Vec<crate::dto::SimpleRound> = Vec::new();
        let mut round_ids = round_ids;
        let n = round_ids.len();
        assert(views(round_ids@).map_values(|v: Seq<String>| v.map_values(|s: String| s@)).len() == n);
        let mut i: usize = 0;
        while i < n
            invariant
                i <= n,
                n == ids.len(),
                views(round_ids@).map_values(|v: Seq<String>| v.map_values(|s: String| s@)) =~= ids.subrange(i as int, n as int),
                round_ids@.len() == n - i,
                forall|j: int| 0 <= j < ids.len() ==> (#[trigger] ids[j]).len() == 3,
                out@.len() == i,
                forall|j: int| 0 <= j < i ==> {
                    &&& (#[trigger] out@[j]).number == j + 1
                    &&& out@[j].id@.map_values(|s: String| s@) == ids[j]
                    &&& out@[j].selected == (j == self.board_round())
                },
            decreases n - i,
        {
            let ghost left = views(round_ids@).map_values(|v: Seq<String>| v.map_values(|s: String| s@));
            assert(left[0] == ids[i as int]);
            assert(left[0] == round_ids@[0]@.map_values(|s: String| s@));
            let mut v = round_ids.remove(0);
            assert(v@.map_values(|s: String| s@) == ids[i as int]);
            proof {
                assert(views(round_ids@).map_values(|v: Seq<String>| v.map_values(|s: String| s@)) =~= left.subrange(1, left.len() as int));
            }
            let c = v.pop().unwrap();
            let b = v.pop().unwrap();
            let a = v.pop().unwrap();
            let id: [String; 3] = [a, b, c];
            proof {
                assert(id@.map_values(|s: String| s@) =~= ids[i as int]);
            }
            out.push(crate::dto::SimpleRound::new(i, id, i == self.leaderboard_round));
            i = i + 1;
        }
        out
    }
}

/// The ids of the rounds of each event, as text.
pub open spec fn id_views(lists: Seq<Vec<String>>) -> Seq<Seq<Seq<char>>> {
    lists.map_values(|v: Vec<String>| v@.map_values(|s: String| s@))
}

/// The index of the first division with the given name.
pub open spec fn first_division_named(divs: Seq<Division>, name: Seq<char>, from: int) -> Option<int>
    decreases divs.len() - from,
{
    if from < 0 || from >= divs.len() {
        None
    } else if divs[from].name@ == name {
        Some(from)
    } else {
        first_division_named(divs, name, from + 1)
    }
}

proof fn lemma_first_division_named(divs: Seq<Division>, name: Seq<char>, from: int)
    requires
        0 <= from,
    ensures
        first_division_named(divs, name, from) matches Some(k) ==> from <= k < divs.len() && divs[k].name@ == name,
    decreases divs.len() - from,
{
    if from < divs.len() && divs[from].name@ != name {
        lemma_first_division_named(divs, name, from + 1);
    }
}

proof fn lemma_first_division_named_views(a: Seq<Division>, b: Seq<Division>, name: Seq<char>, from: int)
    requires
        a.map_values(|d: Division| crate::handler::division_view(d)) == b.map_values(|d: Division| crate::handler::division_view(d)),
        0 <= from,
    ensures
        first_division_named(a, name, from) == first_division_named(b, name, from),
        first_division_named(a, name, from) matches Some(k) ==> crate::handler::division_view(a[k]) == crate::handler::division_view(b[k]),
    decreases a.len() - from,
{
    assert(a.len() == b.map_values(|d: Division| crate::handler::division_view(d)).len());
    if from < a.len() {
        assert(a.map_values(|d: Division| crate::handler::division_view(d))[from] == b.map_values(|d: Division| crate::handler::division_view(d))[from]);
        lemma_first_division_named_views(a, b, name, from + 1);
    }
}

/// The commands that fill the scorecard of a player, then those of the
/// current-player view (see `Player::set_all_values`).
pub open spec fn values_cmds(board: Leaderboard, p: Player, max_all: bool, stat: (usize, usize)) -> Seq<Seq<char>> {
    part_cmds(all_values_calls(board, p, max_all, stat.0, stat.1))
        + part_cmds(current_view(p, all_values_calls(board, p, max_all, stat.0, stat.1)))
}

/// Whether the scorecard of a player can be filled and the latest holes shown.
pub open spec fn card_showable(p: Player, max_all: bool) -> bool {
    &&& values_showable(p, max_all)
    &&& latest_showable(p.rs(), p.results.start_at_hole)
}

impl FlipUpVMixCoordinator {
    /// Whether the board can be added and the scorecard of the player in
    /// focus shown, with `stats` the statistics (circle hits and inside putts,
    /// in percent) of each player of the round.
    pub open spec fn can_show_focused(&self, stats: Seq<(usize, usize)>, max_all: bool) -> bool {
        &&& self.ready()
        &&& board_ready(self.players(), self.previous())
        &&& card_showable(self.focused(), max_all)
        &&& stats.len() == self.players().len()
    }

    /// Whether `other` is `self` after the board of the round was added and
    /// the scorecard of the player in focus was filled.
    pub open spec fn focused_shown(&self, other: &Self, stats: Seq<(usize, usize)>, max_all: bool) -> bool {
        &&& self.same_setup(other)
        &&& other.ready()
        &&& other.focus_index() == self.focus_index()
        &&& other.through() == self.focused().hole_shown_up_until as u8
        &&& exists|s: LeaderboardState| #![trigger board_with(self.board(), other.board(), s)]
            counted_state(s, self.round(), self.players(), self.previous()) && board_with(self.board(), other.board(), s)
        &&& other.players() == with_board_totals(self.players(), other.board())
        &&& other.handler_of().rounds() == self.handler_of().rounds().update(self.handler_of().container_round() as int, other.players())
        &&& other.sent() == self.sent() + values_cmds(other.board(), other.focused(), max_all, stats[self.focus_index()])
    }

    /// Adds the board of the round and fills the scorecard of the player in focus.
    fn show_focused(&mut self, stats: &Vec<(usize, usize)>, max_all: bool) -> (r: Result<(), Error>)
        requires
            old(self).can_show_focused(stats@, max_all),
        ensures
            r is Ok,
            old(self).focused_shown(&*final(self), stats@, max_all),
    {
        proof {
            crate::queue::lemma_first_player(old(self).players(), old(self).focus_id(), 0);
        }
        self.add_state_to_leaderboard();
        let ghost p2 = self.focused();
        proof {
            lemma_first_same_ids(self.players(), old(self).players(), old(self).focus_id(), 0);
            lemma_board_totals_keep(old(self).players(), self.board(), old(self).focus_index());
            assert(self.ready());
            assert(self.focus_index() == old(self).focus_index());
            assert(p2.rs() == old(self).focused().rs());
            crate::player::lemma_latest_showable(p2.results);
        }
        let k = self.focus_position();
        let stat = stats[k];
        let all = match self.focused_player().set_all_values(&self.leaderboard, max_all, stat.0, stat.1) {
            Ok(v) => v,
            Err(e) => {
                proof {
                    assert(false);
                }
                return Err(e);
            },
        };
        let current = self.focused_player().set_all_current_player_values(all.as_slice());
        let ghost mid = *self;
        self.queue_add(&all);
        self.queue_add(&current);
        proof {
            assert(self.players() == mid.players());
            assert(self.focused() == mid.focused());
            assert(self.sent() =~= old(self).sent() + values_cmds(self.board(), self.focused(), max_all, stats@[old(self).focus_index()]));
        }
        Ok(())
    }

    /// The index of the player in focus among the players of the round.
    fn focus_position(&self) -> (r: usize)
        requires
            self.ready(),
        ensures
            r == self.focus_index(),
    {
        let id = self.focused_player().player_id.clone();
        let players = self.available_players();
        proof {
            crate::queue::lemma_first_player(self.players(), self.focus_id(), 0);
            assert(id@ == self.focus_id());
        }
        let mut i: usize = 0;
        while i < players.len()
            invariant
                i <= players@.len(),
                derefs(players@) == self.players(),
                id@ == self.focus_id(),
                first_player_with_id(self.players(), self.focus_id(), 0) is Some,
                first_player_with_id(self.players(), self.focus_id(), 0) == first_player_with_id(self.players(), self.focus_id(), i as int),
            decreases players@.len() - i,
        {
            assert(self.players()[i as int] == *players@[i as int]);
            if crate::text::str_eq(players[i].player_id.as_str(), id.as_str()) {
                return i;
            }
            i = i + 1;
        }
        proof {
            assert(false);
        }
        0
    }
}

/// The index of the first group with the given id.
pub open spec fn group_with_id(groups: Seq<Group>, id: Seq<char>, from: int) -> Option<int>
    decreases groups.len() - from,
{
    if from < 0 || from >= groups.len() {
        None
    } else if groups[from].id@ == id {
        Some(from)
    } else {
        group_with_id(groups, id, from + 1)
    }
}

proof fn lemma_group_with_id(groups: Seq<Group>, id: Seq<char>, from: int)
    requires
        0 <= from,
    ensures
        group_with_id(groups, id, from) matches Some(k) ==> from <= k < groups.len() && groups[k].id@ == id,
    decreases groups.len() - from,
{
    if from < groups.len() && groups[from].id@ != id {
        lemma_group_with_id(groups, id, from + 1);
    }
}

/// The focus after a card is replaced: kept, or moved to the last entry.
pub open spec fn replaced_focus(focus: int, len: int) -> int {
    if focus >= len { len - 1 } else { focus }
}

impl FlipUpVMixCoordinator {
    /// Whether `other` is `self` with the card and queue `entries` and the
    /// focus `focus`, and nothing else changed.
    pub open spec fn same_but_manager(&self, other: &Self, entries: Seq<QueueEntry>, focus: int) -> bool {
        &&& other.manager().entries() == entries
        &&& other.manager().focus() == focus
        &&& other.handler_of() == self.handler_of()
        &&& other.featured_manager() == self.featured_manager()
        &&& other.board() == self.board()
        &&& other.divisions() == self.divisions()
        &&& other.round() == self.round()
        &&& other.board_round() == self.board_round()
        &&& other.through() == self.through()
        &&& other.featured_hole_number() == self.featured_hole_number()
        &&& other.featured_count() == self.featured_count()
        &&& other.next_group_id() == self.next_group_id()
        &&& other.animated_index() == self.animated_index()
        &&& other.sent() == self.sent()
    }

    /// The groups of the round that is on.
    pub open spec fn round_groups(&self) -> Seq<Group> {
        self.handler_of().group_lists()[self.handler_of().round() as int]@
    }

    /// Whether the card can be set to the group with the given id (see `set_group`).
    pub open spec fn can_set_group(&self, group_id: Seq<char>, stats: Seq<(usize, usize)>) -> bool {
        &&& self.handler_of().round() < self.handler_of().group_lists().len()
        &&& self.ready()
        &&& group_with_id(self.round_groups(), group_id, 0) matches Some(g) ==> {
            let entries = replaced(self.manager().entries(), player_ids_of(self.round_groups()[g]));
            let focus = replaced_focus(self.manager().focus(), entries.len() as int);
            &&& entries.len() > 0
            &&& first_player_with_id(self.players(), entries[focus].id, 0) matches Some(k)
                && card_showable(self.players()[k], false)
            &&& board_ready(self.players(), self.previous())
            &&& stats.len() == self.players().len()
        }
    }

    /// Sets the card to the players of the group of the round with the given
    /// id (see `PlayerManager::replace`), adds the board of the round and fills
    /// the scorecard of the player in focus; a group that does not exist is
    /// refused.
    pub fn set_group(&mut self, group_id: &str, stats: &Vec<(usize, usize)>) -> (r: Result<(), Error>)
        requires
            old(self).can_set_group(group_id@, stats@),
        ensures
            match group_with_id(old(self).round_groups(), group_id@, 0) {
                None => r matches Err(Error::UnableToParse) && *final(self) == *old(self),
                Some(g) => {
                    let entries = replaced(old(self).manager().entries(), player_ids_of(old(self).round_groups()[g]));
                    let focus = replaced_focus(old(self).manager().focus(), entries.len() as int);
                    &&& r is Ok
                    &&& exists|mid: Self| #![trigger old(self).same_but_manager(&mid, entries, focus)]
                        old(self).same_but_manager(&mid, entries, focus) && mid.division() == old(self).division()
                        && mid.focused_shown(&*final(self), stats@, false)
                },
            },
    {
        let found: Option<Vec<String>> = {
            let groups = self.groups();
            proof {
                lemma_group_with_id(groups@, group_id@, 0);
            }
            let mut found: Option<Vec<String>> = None;
            let mut i: usize = 0;
            while i < groups.len()
                invariant_except_break
                    i <= groups@.len(),
                    found is None,
                    group_with_id(groups@, group_id@, 0) == group_with_id(groups@, group_id@, i as int),
                ensures
                    match group_with_id(groups@, group_id@, 0) {
                        Some(g) => found matches Some(ids) && ids@.map_values(|s: String| s@) == player_ids_of(groups@[g]),
                        None => found is None,
                    },
                decreases groups@.len() - i,
            {
                if crate::text::str_eq(groups[i].id.as_str(), group_id) {
                    found = Some(groups[i].player_ids());
                    break;
                }
                i = i + 1;
            }
            found
        };
        let ids = match found {
            Some(ids) => ids,
            None => return Err(Error::UnableToParse),
        };
        let ghost idv = ids@.map_values(|s: String| s@);
        self.player_manager.replace(ids);
        let ghost mid = *self;
        proof {
            assert(self.players() == old(self).players());
            assert(self.previous() == old(self).previous());
            let g = group_with_id(old(self).round_groups(), group_id@, 0)->0;
            assert(idv == player_ids_of(old(self).round_groups()[g]));
            let entries = replaced(old(self).manager().entries(), idv);
            assert(old(self).same_but_manager(&mid, entries, replaced_focus(old(self).manager().focus(), entries.len() as int)));
        }
        self.show_focused(stats, false)
    }

    /// Puts the player at the given index of the card in focus and shows the
    /// leaderboard of their division: the board of the round is added and
    /// their whole scorecard is filled. An index past the players of the card
    /// is refused.
    pub fn set_focused_player(&mut self, index: usize, stats: &Vec<(usize, usize)>) -> (r: Result<(), Error>)
        requires
            old(self).ready(),
            index < crate::queue::matched_players(old(self).manager().entries(), old(self).players()).len()
                && index < card_of(old(self).manager().entries()).len() ==> {
                let focus = focus_on(old(self).manager().entries(), card_of(old(self).manager().entries())[index as int].id, old(self).manager().focus());
                &&& first_player_with_id(old(self).players(), old(self).manager().entries()[focus].id, 0) matches Some(k)
                    && card_showable(old(self).players()[k], true)
                &&& board_ready(old(self).players(), old(self).previous())
                &&& stats@.len() == old(self).players().len()
            },
        ensures
            index >= crate::queue::matched_players(old(self).manager().entries(), old(self).players()).len()
                ==> (r matches Err(Error::CardIndexNotFound(i)) && i == index && *final(self) == *old(self)),
            index < crate::queue::matched_players(old(self).manager().entries(), old(self).players()).len()
                && index >= card_of(old(self).manager().entries()).len()
                ==> (r matches Err(Error::PlayerInCardNotFound(i)) && i == index
                    && old(self).same_but_manager(&*final(self), old(self).manager().entries(), old(self).manager().focus())
                    && final(self).division() == old(self).division()),
            index < crate::queue::matched_players(old(self).manager().entries(), old(self).players()).len()
                && index < card_of(old(self).manager().entries()).len() ==> {
                let focus = focus_on(old(self).manager().entries(), card_of(old(self).manager().entries())[index as int].id, old(self).manager().focus());
                &&& r is Ok
                &&& exists|mid: Self| #![trigger old(self).same_but_manager(&mid, old(self).manager().entries(), focus)]
                    old(self).same_but_manager(&mid, old(self).manager().entries(), focus)
                    && mid.focused_shown(&*final(self), stats@, true)
                    && mid.division() == mid.focused().division
            },
    {
        let n = self.player_manager.players(self.available_players()).len();
        if index >= n {
            return Err(Error::CardIndexNotFound(index));
        }
        match self.player_manager.set_focused_by_card_index(index) {
            Ok(()) => {},
            Err(e) => return Err(e),
        }
        proof {
            assert(self.players() == old(self).players());
            assert(self.previous() == old(self).previous());
            crate::queue::lemma_last_index(old(self).manager().entries(), card_of(old(self).manager().entries())[index as int].id);
        }
        let division = self.focused_player().division.duplicate();
        self.leaderboard_division = division;
        let ghost mid = *self;
        let out = self.show_focused(stats, true);
        proof {
            assert(old(self).same_but_manager(&mid, old(self).manager().entries(),
                focus_on(old(self).manager().entries(), card_of(old(self).manager().entries())[index as int].id, old(self).manager().focus())));
        }
        out
    }
}

/// The key a group's start is ordered by: its start time where it has one,
/// else the hole after its starting hole (counted round a course of 18).
pub open spec fn start_key(g: Group) -> u32 {
    match g.start_time {
        Some(t) => t,
        None => ((g.start_at_hole % 18) + 1) as u32,
    }
}

/// The index of the group that starts first: the first with the smallest key.
pub open spec fn first_start(groups: Seq<Group>, k: int) -> bool {
    &&& 0 <= k < groups.len()
    &&& forall|j: int| 0 <= j < groups.len() ==> start_key(groups[k]) <= #[trigger] start_key(groups[j])
    &&& forall|j: int| 0 <= j < k ==> start_key(groups[k]) < #[trigger] start_key(groups[j])
}

fn group_start_key(g: &Group) -> (r: u32)
    ensures
        r == start_key(*g),
{
    match g.start_time {
        Some(t) => t,
        None => ((g.start_at_hole % 18) + 1) as u32,
    }
}

/// The index of the group of a round that starts first.
fn earliest_group(groups: &Vec<Group>) -> (r: usize)
    requires
        groups@.len() > 0,
    ensures
        first_start(groups@, r as int),
{
    let mut best: usize = 0;
    let mut best_key = group_start_key(&groups[0]);
    let mut i: usize = 1;
    while i < groups.len()
        invariant
            1 <= i <= groups@.len(),
            best < i,
            best_key == start_key(groups@[best as int]),
            forall|j: int| 0 <= j < i ==> best_key <= #[trigger] start_key(groups@[j]),
            forall|j: int| 0 <= j < best ==> best_key < #[trigger] start_key(groups@[j]),
        decreases groups@.len() - i,
    {
        let key = group_start_key(&groups[i]);
        if key < best_key {
            best = i;
            best_key = key;
        }
        i = i + 1;
    }
    best
}

impl FlipUpVMixCoordinator {
    /// Sets up the broadcast of round `round` from what was read of the events:
    /// the first group of the first round is on the card and its first player
    /// in focus, the group of the round that starts first is featured, the
    /// boards of the earlier rounds are counted, and the scorecard of the
    /// player in focus is emptied with their name shown.
    pub fn new(
        handler: RustHandler,
        ip: String,
        focused_player: usize,
        round: usize,
        featured_hole: u8,
        event_ids: Vec<String>,
    ) -> (r: Self)
        requires
            handler.group_lists().len() > 0,
            handler.group_lists()[0]@.len() > 0,
            round < handler.group_lists().len(),
            handler.group_lists()[round as int]@.len() > 0,
            handler.division_list().len() > 0,
            handler.can_count_previous(),
            ({
                let prev = handler.previous_players();
                forall|i: int| 0 <= i < prev.len() ==> {
                    let p = #[trigger] prev[i];
                    &&& round_fits(p.rs())
                    &&& isize::MIN <= p.total_score + relative_sum(p.rs(), p.rs().len() as int) <= isize::MAX
                }
            }),
            handler.container_round() < handler.rounds().len(),
            player_ids_of(handler.group_lists()[0]@[0]).len() > 0,
            first_player_with_id(
                handler.rounds()[handler.container_round() as int],
                player_ids_of(handler.group_lists()[0]@[0])[0],
                0,
            ) is Some,
        ensures
            ({
                let first = handler.group_lists()[0]@[0];
                let players = handler.rounds()[handler.container_round() as int];
                let k = first_player_with_id(players, player_ids_of(first)[0], 0)->0;
                let f = players[k];
                &&& r.divisions().map_values(|d: Division| crate::handler::division_view(d))
                    == handler.division_list().map_values(|d: Division| crate::handler::division_view(d))
                &&& crate::handler::division_view(r.division()) == crate::handler::division_view(handler.division_list()[0])
                &&& r.manager().entries() == crate::queue::card_entries(player_ids_of(first))
                &&& r.manager().focus() == 0
                &&& exists|g: int| #![trigger first_start(handler.group_lists()[round as int]@, g)]
                    first_start(handler.group_lists()[round as int]@, g)
                    && r.featured_manager().entries() == crate::queue::card_entries(player_ids_of(handler.group_lists()[round as int]@[g]))
                &&& r.featured_manager().focus() == 0
                &&& handler.previous_leaderboards(r.board())
                &&& r.round() == round
                &&& r.board_round() == round
                &&& r.through() == 0
                &&& r.featured_hole_number() == featured_hole
                &&& r.featured_count() == 1
                &&& r.next_group_id() == first.id@
                &&& r.animated_index() == focused_player
                &&& r.ready()
                &&& r.focused().player_id@ == f.player_id@
                &&& exists|q: Player| #![trigger reset(q, f)]
                    reset(q, f)
                    && r.handler_of().rounds() == handler.rounds().update(handler.container_round() as int, players.update(k, q))
                    && r.sent() == part_cmds(seq![
                        (VMixFunction::SetText, Some(VMixPlayerInfo::Name(0)), Some(f.first_name@)),
                        (VMixFunction::SetText, Some(VMixPlayerInfo::Surname(0)), Some(f.surname@)),
                    ]) + part_cmds(reset_calls(f))
            }),
    {
        let mut handler = handler;
        let all_divs = handler.get_divisions();
        let (first_ids, next_group, featured_ids) = {
            let groups = handler.group_table();
            let first_group = &groups[0][0];
            let g = earliest_group(&groups[round]);
            (first_group.player_ids(), first_group.id.clone(), groups[round][g].player_ids())
        };
        let leaderboard = handler.get_previous_leaderboards();
        assert(all_divs@.len() == handler.division_list().map_values(|d: Division| crate::handler::division_view(d)).len());
        let division = all_divs[0].duplicate();
        assert(all_divs@.map_values(|d: Division| crate::handler::division_view(d))[0]
            == handler.division_list().map_values(|d: Division| crate::handler::division_view(d))[0]);
        assert(crate::handler::division_view(division) == crate::handler::division_view(handler.division_list()[0]));
        let mut coordinator = FlipUpVMixCoordinator {
            all_divs,
            leaderboard_division: division,
            leaderboard,
            focused_player_index: focused_player,
            ip,
            handler,
            round_ind: round,
            current_through: 0,
            vmix_queue: Vec::new(),
            player_manager: PlayerManager::new(first_ids),
            event_ids,
            featured_card: PlayerManager::new(featured_ids),
            featured_hole,
            groups_featured_so_far: 1,
            leaderboard_round: round,
            next_group,
        };
        coordinator.handler.add_total_score_to_players();
        let ghost c0 = coordinator;
        proof {
            assert(c0.handler_of() == handler);
            assert(c0.manager().entries()[0].id == player_ids_of(handler.group_lists()[0]@[0])[0]);
            assert(c0.ready());
        }
        let names = coordinator.focused_player().set_name();
        coordinator.queue_add(&names);
        let ghost c1 = coordinator;
        assert(c1.ready());
        coordinator.reset_score();
        proof {
            let first = handler.group_lists()[0]@[0];
            let players = handler.rounds()[handler.container_round() as int];
            let k = first_player_with_id(players, player_ids_of(first)[0], 0)->0;
            assert(c1.focus_index() == k);
            assert(c1.focused() == players[k]);
            let q = choose|q: Player| #![trigger reset(q, c1.focused())]
                reset(q, c1.focused()) && c1.same_but_players(&coordinator, c1.players().update(c1.focus_index(), q))
                && coordinator.sent() == c1.sent() + part_cmds(reset_calls(c1.focused()));
            crate::queue::lemma_first_player(players, player_ids_of(first)[0], 0);
            lemma_focus_kept(c1, coordinator, q);
            assert(coordinator.ready());
            assert(coordinator.sent() =~= part_cmds(seq![
                (VMixFunction::SetText, Some(VMixPlayerInfo::Name(0)), Some(players[k].first_name@)),
                (VMixFunction::SetText, Some(VMixPlayerInfo::Surname(0)), Some(players[k].surname@)),
            ]) + part_cmds(reset_calls(players[k])));
            assert(coordinator.divisions().map_values(|d: Division| crate::handler::division_view(d))
                == handler.division_list().map_values(|d: Division| crate::handler::division_view(d)));
            assert(crate::handler::division_view(coordinator.division()) == crate::handler::division_view(handler.division_list()[0]));
            assert(coordinator.manager().entries() == crate::queue::card_entries(player_ids_of(first)));
            assert(handler.previous_leaderboards(coordinator.board()));
            assert(coordinator.next_group_id() == first.id@);
        }
        coordinator
    }
}

/// The calls of a scorecard on slot `index` of the comparison title with the
/// player's picture (see `Player::set_all_compare_2x2_values`).
pub open spec fn compare_view(board: Leaderboard, p: Player, index: usize, hidden: bool, stat: (usize, usize), windows: bool) -> Seq<(VMixFunction, Option<Compare2x2>, Option<Seq<char>>)> {
    compare_parts(all_values_calls(board, p, !hidden, stat.0, stat.1), index)
        + seq![(VMixFunction::SetImage, Some(Compare2x2::PlayerImage { index }), Some(
            match (if windows { opt_view(p.image_location) } else { opt_view(p.image_url) }) {
                Some(img) => img,
                None => PLACEHOLDER_IMAGE@,
            },
        ))]
}

/// Whether a player is on the card with the given ids.
pub open spec fn card_pred(ids: Seq<Seq<char>>) -> spec_fn(Player) -> bool {
    |p: Player| ids.contains(p.player_id@)
}

/// The comparison calls of the players among the first `n` of the round who
/// are on the card, each on the slot of its place among them.
pub open spec fn card_compare(board: Leaderboard, players: Seq<Player>, ids: Seq<Seq<char>>, stats: Seq<(usize, usize)>, windows: bool, n: int) -> Seq<(VMixFunction, Option<Compare2x2>, Option<Seq<char>>)>
    decreases n,
{
    if n <= 0 {
        seq![]
    } else if ids.contains(players[n - 1].player_id@) {
        card_compare(board, players, ids, stats, windows, n - 1)
            + compare_view(board, players[n - 1], players.take(n - 1).filter(card_pred(ids)).len() as usize, false, stats[n - 1], windows)
    } else {
        card_compare(board, players, ids, stats, windows, n - 1)
    }
}

/// The comparison calls of the empty slots `from` to `to - 1`.
pub open spec fn null_compare(board: Leaderboard, np: Player, windows: bool, from: int, to: int) -> Seq<(VMixFunction, Option<Compare2x2>, Option<Seq<char>>)>
    decreases to - from,
{
    if to <= from {
        seq![]
    } else {
        null_compare(board, np, windows, from, to - 1) + compare_view(board, np, (to - 1) as usize, true, (0, 0), windows)
    }
}

/// The ids of the players on a card.
pub open spec fn card_ids(m: PlayerManager) -> Seq<Seq<char>> {
    card_of(m.entries()).map_values(|e: QueueEntry| e.id)
}

/// Whether a player is the empty player of a title (see `Player::null_player`).
pub open spec fn is_null_player(r: Player) -> bool {
    &&& r.player_id@ == Seq::<char>::empty()
    &&& r.name@ == Seq::<char>::empty()
    &&& r.first_name@ == Seq::<char>::empty()
    &&& r.surname@ == Seq::<char>::empty()
    &&& r.rank == RankUpDown::Same
    &&& r.pdga_num is None
    &&& r.image_url is None
    &&& r.image_location is None
    &&& r.total_score == 0
    &&& r.round_score == 0
    &&& r.round_ind == 0
    &&& r.rs().len() == 0
    &&& r.hole_shown_up_until == 0
    &&& r.throws == 0
}

impl FlipUpVMixCoordinator {
    /// The comparison calls of the players of the round on the card of
    /// `manager` (see `card_compare`).
    fn card_compare_calls(&self, manager: &PlayerManager, stats: &Vec<(usize, usize)>, windows: bool) -> (r: Vec<VMixInterfacer<Compare2x2>>)
        requires
            self.handler_of().container_round() < self.handler_of().rounds().len(),
            self.board().states@.len() > 0,
            stats@.len() == self.players().len(),
            forall|j: int| 0 <= j < self.players().len() && card_ids(*manager).contains(self.players()[j].player_id@)
                ==> values_showable(#[trigger] self.players()[j], true),
        ensures
            parts_of(r@) == card_compare(self.board(), self.players(), card_ids(*manager), stats@, windows, self.players().len() as int),
    {
        let players = self.available_players();
        let ids = manager.card_id_list();
        let ghost idv = card_ids(*manager);
        let mut out: Vec<VMixInterfacer<Compare2x2>> = Vec::new();
        let mut slot: usize = 0;
        let mut j: usize = 0;
        while j < players.len()
            invariant
                j <= players@.len(),
                derefs(players@) == self.players(),
                stats@.len() == self.players().len(),
                self.board().states@.len() > 0,
                ids@.map_values(|s: String| s@) == idv,
                idv == card_ids(*manager),
                forall|k: int| 0 <= k < self.players().len() && idv.contains(self.players()[k].player_id@)
                    ==> values_showable(#[trigger] self.players()[k], true),
                slot as int == self.players().take(j as int).filter(card_pred(idv)).len(),
                slot <= j,
                parts_of(out@) =~= card_compare(self.board(), self.players(), idv, stats@, windows, j as int),
            decreases players@.len() - j,
        {
            let p: &Player = players[j];
            assert(*p == self.players()[j as int]);
            proof {
                assert(self.players().take(j + 1) =~= self.players().take(j as int).push(*p));
                self.players().take(j as int).lemma_filter_push(*p, card_pred(idv));
            }
            if crate::queue::contains_id(&ids, p.player_id.as_str()) {
                let calls = match p.set_all_compare_2x2_values(slot, &self.leaderboard, false, stats[j].0, stats[j].1, windows) {
                    Ok(v) => v,
                    Err(_) => {
                        proof {
                            assert(false);
                        }
                        Vec::new()
                    },
                };
                let mut calls = calls;
                let ghost before = parts_of(out@);
                out.append(&mut calls);
                proof {
                    assert(parts_of(out@) =~= before + compare_view(self.board(), *p, slot, false, stats@[j as int], windows));
                }
                slot = slot + 1;
            }
            j = j + 1;
        }
        proof {
            assert(self.players().take(players@.len() as int) =~= self.players());
        }
        out
    }

    /// Adds the comparison calls of the empty slots after the players of the
    /// card of `manager`, up to the fourth.
    pub fn add_null_players(&self, instructions: &mut Vec<VMixInterfacer<Compare2x2>>, player_manager: &PlayerManager, windows: bool) -> (r: Result<(), Error>)
        requires
            self.handler_of().container_round() < self.handler_of().rounds().len(),
            self.board().states@.len() > 0,
        ensures
            r is Ok,
            exists|np: Player| #![trigger is_null_player(np)] is_null_player(np)
                && parts_of(final(instructions)@) == parts_of(old(instructions)@) + null_compare(self.board(), np,
                    windows, crate::queue::matched_players(player_manager.entries(), self.players()).len() as int, 4),
    {
        let matched = player_manager.players(self.available_players());
        let n = matched.len();
        assert(n as int == crate::queue::matched_players(player_manager.entries(), self.players()).len()) by {
            assert(derefs(matched@).len() == matched@.len());
        }
        let null = Player::null_player();
        let ghost start = parts_of(instructions@);
        let mut index: usize = n;
        while index < 4
            invariant
                n <= index,
                n < 4 ==> index <= 4,
                n >= 4 ==> index == n,
                self.board().states@.len() > 0,
                is_null_player(null),
                parts_of(instructions@) =~= start + null_compare(self.board(), null, windows, n as int, index as int),
            decreases 4 - index,
        {
            let mut calls = match null.set_all_compare_2x2_values(index, &self.leaderboard, true, 0, 0, windows) {
                Ok(v) => v,
                Err(e) => return Err(e),
            };
            let ghost before = parts_of(instructions@);
            instructions.append(&mut calls);
            proof {
                assert(parts_of(instructions@) =~= before + compare_view(self.board(), null, index, true, (0, 0), windows));
            }
            index = index + 1;
        }
        proof {
            if n >= 4 {
                assert(null_compare(self.board(), null, windows, n as int, 4) =~= Seq::empty());
                assert(null_compare(self.board(), null, windows, n as int, n as int) =~= Seq::empty());
                assert(index == n);
            } else {
                assert(index == 4);
            }
            assert(parts_of(instructions@) =~= start + null_compare(self.board(), null, windows, n as int, 4));
            assert(is_null_player(null));
        }
        Ok(())
    }
}


/// Comparison calls moved to the featured title.
pub open spec fn featured_of(ps: Seq<(VMixFunction, Option<Compare2x2>, Option<Seq<char>>)>) -> Seq<(VMixFunction, Option<Featured>, Option<Seq<char>>)> {
    ps.map_values(|c: (VMixFunction, Option<Compare2x2>, Option<Seq<char>>)| (c.0, match c.1 {
        Some(i) => Some(Featured(i)),
        None => None,
    }, c.2))
}

/// Hole card calls moved to the featured hole title.
pub open spec fn featured_hole_of(ps: Seq<(VMixFunction, Option<VMixHoleInfo>, Option<Seq<char>>)>) -> Seq<(VMixFunction, Option<FeaturedHole>, Option<Seq<char>>)> {
    ps.map_values(|c: (VMixFunction, Option<VMixHoleInfo>, Option<Seq<char>>)| (c.0, match c.1 {
        Some(i) => Some(FeaturedHole(i)),
        None => None,
    }, c.2))
}

impl FlipUpVMixCoordinator {
    /// The id of the player in focus on the featured card.
    pub open spec fn featured_id(&self) -> Seq<char> {
        self.featured_manager().entries()[self.featured_manager().focus()].id
    }

    /// The player in focus on the featured card.
    pub open spec fn featured_player(&self) -> Player {
        self.players()[first_player_with_id(self.players(), self.featured_id(), 0)->0]
    }

    /// What showing the featured card needs (see `update_featured_card`).
    pub open spec fn can_feature(&self, stats: Seq<(usize, usize)>) -> bool {
        &&& self.ready()
        &&& board_ready(self.players(), self.previous())
        &&& stats.len() == self.players().len()
        &&& self.featured_manager().has_focus()
        &&& first_player_with_id(self.players(), self.featured_id(), 0) is Some
        &&& find_hole_spec(self.featured_player().holes.holes@, self.featured_hole_number()) matches Some(h) && 1 <= h.hole <= 18
        &&& forall|j: int| 0 <= j < self.players().len() && card_ids(self.featured_manager()).contains(self.players()[j].player_id@)
            ==> values_showable(#[trigger] self.players()[j], true)
    }

    /// Whether `other` is `self` after the featured card was shown.
    pub open spec fn featured_shown(&self, other: &Self, stats: Seq<(usize, usize)>, averages: Seq<HoleAverage>, feet: u16, windows: bool) -> bool {
        &&& self.same_setup(other)
        &&& other.ready()
        &&& other.through() == self.focused().hole_shown_up_until as u8
        &&& exists|s: LeaderboardState| #![trigger board_with(self.board(), other.board(), s)]
            counted_state(s, self.round(), self.players(), self.previous()) && board_with(self.board(), other.board(), s)
        &&& other.players() == with_board_totals(self.players(), other.board())
        &&& other.handler_of().rounds() == self.handler_of().rounds().update(self.handler_of().container_round() as int, other.players())
        &&& exists|np: Player, ps: Seq<(VMixFunction, Option<VMixHoleInfo>, Option<Seq<char>>)>| #![trigger is_null_player(np), hole_info_parts(ps, self.featured_hole_number(), averages, feet, self.featured_player().holes.holes@, self.division())]
            is_null_player(np)
            && hole_info_parts(ps, self.featured_hole_number(), averages, feet, self.featured_player().holes.holes@, self.division())
            && other.sent() == self.sent()
                + part_cmds(featured_of(card_compare(other.board(), other.players(), card_ids(self.featured_manager()), stats, windows, other.players().len() as int)
                    + null_compare(other.board(), np, windows,
                        crate::queue::matched_players(self.featured_manager().entries(), other.players()).len() as int, 4)))
                + part_cmds(featured_hole_of(ps))
    }

    /// Shows the featured card: the board of the round is added, the players
    /// of the featured card fill the featured comparison title (empty slots up
    /// to four), and the featured hole's card is shown for the layout of the
    /// player in focus there. `stats` are the statistics of each player of the
    /// round, `averages` those of the holes, `feet` the hole's length in feet.
    pub fn update_featured_card(&mut self, stats: &Vec<(usize, usize)>, averages: Vec<HoleAverage>, feet: u16, windows: bool) -> (r: Result<(), Error>)
        requires
            old(self).can_feature(stats@),
        ensures
            r is Ok,
            old(self).featured_shown(&*final(self), stats@, averages@, feet, windows),
    {
        proof {
            crate::queue::lemma_first_player(old(self).players(), old(self).focus_id(), 0);
            crate::queue::lemma_first_player(old(self).players(), old(self).featured_id(), 0);
        }
        let ghost fk = first_player_with_id(old(self).players(), old(self).featured_id(), 0)->0;
        self.add_state_to_leaderboard();
        proof {
            lemma_first_same_ids(self.players(), old(self).players(), old(self).focus_id(), 0);
            lemma_first_same_ids(self.players(), old(self).players(), old(self).featured_id(), 0);
            assert(self.ready());
            assert forall|j: int| 0 <= j < self.players().len() && card_ids(self.featured_manager()).contains(self.players()[j].player_id@)
                implies values_showable(#[trigger] self.players()[j], true) by {
                lemma_board_totals_keep(old(self).players(), self.board(), j);
                assert(values_showable(old(self).players()[j], true));
            }
            lemma_board_totals_keep(old(self).players(), self.board(), fk);
        }
        let mut instructs = self.card_compare_calls(&self.featured_card, stats, windows);
        match self.add_null_players(&mut instructs, &self.featured_card, windows) {
            Ok(()) => {},
            Err(e) => return Err(e),
        }
        let mut featured: Vec<VMixInterfacer<Featured>> = Vec::new();
        let mut k: usize = 0;
        while k < instructs.len()
            invariant
                k <= instructs@.len(),
                parts_of(featured@) =~= featured_of(parts_of(instructs@).take(k as int)),
            decreases instructs@.len() - k,
        {
            let c = instructs[k].duplicate();
            let ghost before = parts_of(featured@);
            let f = c.into_featured();
            featured.push(f);
            proof {
                assert(parts_of(featured@) =~= before.push(f.parts()));
                assert(parts_of(instructs@).take(k + 1) =~= parts_of(instructs@).take(k as int).push(instructs@[k as int].parts()));
            }
            k = k + 1;
        }
        proof {
            assert(parts_of(instructs@).take(instructs@.len() as int) =~= parts_of(instructs@));
        }
        let ghost mid = *self;
        self.queue_add(&featured);
        let featured_hole = self.featured_hole;
        let holes = {
            let fp = self.featured_card.player(self.available_players()).unwrap();
            fp.holes.duplicate()
        };
        let out = self.focused_player().results.get_hole_info(featured_hole, averages, feet, &holes, &self.leaderboard_division);
        let mut cards: Vec<VMixInterfacer<FeaturedHole>> = Vec::new();
        let mut out = out;
        let ghost ov = parts_of(out@);
        let n = out.len();
        let mut k: usize = 0;
        while k < n
            invariant
                k <= n,
                n == ov.len(),
                parts_of(out@) =~= ov.subrange(k as int, n as int),
                out@.len() == n - k,
                parts_of(cards@) =~= featured_hole_of(ov.take(k as int)),
            decreases n - k,
        {
            let ghost left = parts_of(out@);
            let ghost first = out@[0];
            let c = out.remove(0);
            assert(c == first);
            assert(c.parts() == ov[k as int]) by {
                assert(left[0] == first.parts());
            }
            proof {
                assert(parts_of(out@) =~= left.subrange(1, left.len() as int));
            }
            let ghost before = parts_of(cards@);
            let f = c.into_featured_hole_card();
            cards.push(f);
            proof {
                assert(parts_of(cards@) =~= before.push(f.parts()));
                assert(ov.take(k + 1) =~= ov.take(k as int).push(ov[k as int]));
            }
            k = k + 1;
        }
        proof {
            assert(ov.take(n as int) =~= ov);
        }
        self.queue_add(&cards);
        Ok(())
    }

    /// Features the group whose id is next: its players become the featured
    /// card, which is shown (see `update_featured_card`), and one more group
    /// counts as featured. Nothing happens where no group of the round has the id.
    pub fn next_featured_card(&mut self, stats: &Vec<(usize, usize)>, averages: Vec<HoleAverage>, feet: u16, windows: bool) -> (r: Result<(), Error>)
        requires
            old(self).handler_of().round() < old(self).handler_of().group_lists().len(),
            group_with_id(old(self).round_groups(), old(self).next_group_id(), 0) matches Some(g) ==> {
                &&& old(self).featured_count() < u8::MAX
                &&& replaced(old(self).featured_manager().entries(), player_ids_of(old(self).round_groups()[g])).len() > 0
                &&& forall|mid: Self| #[trigger] old(self).featured_replaced(&mid, g) ==> mid.can_feature(stats@)
            },
        ensures
            r is Ok,
            group_with_id(old(self).round_groups(), old(self).next_group_id(), 0) is None ==> *final(self) == *old(self),
            group_with_id(old(self).round_groups(), old(self).next_group_id(), 0) matches Some(g) ==> exists|mid: Self, fin: Self| #![trigger old(self).featured_replaced(&mid, g), mid.featured_shown(&fin, stats@, averages@, feet, windows)]
                old(self).featured_replaced(&mid, g) && mid.featured_shown(&fin, stats@, averages@, feet, windows)
                && *final(self) == fin.with_featured_count((old(self).featured_count() + 1) as u8),
    {
        let found: Option<Vec<String>> = {
            let groups = self.groups();
            proof {
                lemma_group_with_id(groups@, self.next_group_id(), 0);
            }
            let mut found: Option<Vec<String>> = None;
            let mut i: usize = 0;
            while i < groups.len()
                invariant_except_break
                    i <= groups@.len(),
                    found is None,
                    group_with_id(groups@, self.next_group@, 0) == group_with_id(groups@, self.next_group@, i as int),
                ensures
                    match group_with_id(groups@, self.next_group@, 0) {
                        Some(g) => found matches Some(ids) && ids@.map_values(|s: String| s@) == player_ids_of(groups@[g]),
                        None => found is None,
                    },
                decreases groups@.len() - i,
            {
                if crate::text::str_eq(groups[i].id.as_str(), self.next_group.as_str()) {
                    found = Some(groups[i].player_ids());
                    break;
                }
                i = i + 1;
            }
            found
        };
        match found {
            Some(ids) => {
                let ghost g = group_with_id(old(self).round_groups(), old(self).next_group_id(), 0)->0;
                self.featured_card.replace(ids);
                let ghost mid = *self;
                assert(old(self).featured_replaced(&mid, g));
                match self.update_featured_card(stats, averages, feet, windows) {
                    Ok(()) => {},
                    Err(e) => return Err(e),
                }
                let ghost fin = *self;
                proof {
                    assert(mid.featured_shown(&fin, stats@, averages@, feet, windows));
                }
                self.groups_featured_so_far = self.groups_featured_so_far + 1;
            },
            None => {},
        }
        Ok(())
    }

    /// The state with the count of featured groups set.
    pub closed spec fn with_featured_count(&self, n: u8) -> Self {
        FlipUpVMixCoordinator { groups_featured_so_far: n, ..*self }
    }

    /// Whether `other` is `self` with the featured card set to the players
    /// of group `g` of the round (see `PlayerManager::replace`).
    pub open spec fn featured_replaced(&self, other: &Self, g: int) -> bool {
        let entries = replaced(self.featured_manager().entries(), player_ids_of(self.round_groups()[g]));
        &&& other.featured_manager().entries() == entries
        &&& other.featured_manager().focus() == replaced_focus(self.featured_manager().focus(), entries.len() as int)
        &&& no_zero_position(self.featured_manager().entries()) ==> no_zero_position(entries)
        &&& other.handler_of() == self.handler_of()
        &&& other.manager() == self.manager()
        &&& other.board() == self.board()
        &&& other.division() == self.division()
        &&& other.divisions() == self.divisions()
        &&& other.round() == self.round()
        &&& other.board_round() == self.board_round()
        &&& other.through() == self.through()
        &&& other.featured_hole_number() == self.featured_hole_number()
        &&& other.featured_count() == self.featured_count()
        &&& other.next_group_id() == self.next_group_id()
        &&& other.animated_index() == self.animated_index()
        &&& other.sent() == self.sent()
    }

    /// Goes back two featured groups (to none, from fewer than two).
    pub fn rewind_card(&mut self)
        ensures
            final(self).featured_count() == if old(self).featured_count() < 2 { 0 } else { (old(self).featured_count() - 2) as u8 },
            final(self).sent() == old(self).sent(),
            *final(self) == old(self).with_featured_count(if old(self).featured_count() < 2 { 0 } else { (old(self).featured_count() - 2) as u8 }),
    {
        if self.groups_featured_so_far < 2 {
            self.groups_featured_so_far = 0;
        } else {
            self.groups_featured_so_far = self.groups_featured_so_far - 2;
        }
    }
}

impl FlipUpVMixCoordinator {
    /// Shows the card of the hole in view of the player in focus, for the
    /// layout they play and the division on the leaderboard, where the last
    /// hole is not passed; `averages` are the statistics of the holes and
    /// `feet` the hole's length in feet.
    pub fn make_hole_info(&mut self, averages: Vec<HoleAverage>, feet: u16)
        requires
            old(self).ready(),
            old(self).focused().hole_shown_up_until <= 18 ==> (find_hole_spec(old(self).focused().holes.holes@,
                old(self).focused().hole_shown_up_until as u8) matches Some(h) && 1 <= h.hole <= 18),
        ensures
            final(self).through() == old(self).focused().hole_shown_up_until as u8,
            old(self).same_but_players(&*final(self), old(self).players()),
            old(self).focused().hole_shown_up_until > 18 ==> final(self).sent() == old(self).sent(),
            old(self).focused().hole_shown_up_until <= 18 ==> exists|ps: Seq<(VMixFunction, Option<VMixHoleInfo>, Option<Seq<char>>)>|
                #![trigger hole_info_parts(ps, old(self).focused().hole_shown_up_until as u8, averages@, feet, old(self).focused().holes.holes@, old(self).division())]
                hole_info_parts(ps, old(self).focused().hole_shown_up_until as u8, averages@, feet, old(self).focused().holes.holes@, old(self).division())
                && final(self).sent() == old(self).sent() + part_cmds(ps),
    {
        self.set_current_through();
        proof {
            assert(self.handler_of().rounds() =~= old(self).handler_of().rounds());
        }
        let hole = self.current_hole();
        if hole <= 18 {
            let out = {
                let p = self.focused_player();
                p.results.get_hole_info(hole as u8, averages, feet, &p.holes, &self.leaderboard_division)
            };
            self.queue_add(&out);
        }
    }

    /// Whether `a` is `self` after the card was set to the group with id
    /// `gid` (see `set_group`).
    pub open spec fn group_set_to(&self, a: &Self, gid: Seq<char>, stats: Seq<(usize, usize)>) -> bool {
        match group_with_id(self.round_groups(), gid, 0) {
            Some(g) => {
                let entries = replaced(self.manager().entries(), player_ids_of(self.round_groups()[g]));
                let focus = replaced_focus(self.manager().focus(), entries.len() as int);
                exists|mid: Self| #![trigger self.same_but_manager(&mid, entries, focus)]
                    self.same_but_manager(&mid, entries, focus) && mid.division() == self.division()
                    && mid.focused_shown(a, stats, false)
            },
            None => false,
        }
    }

    /// Whether `other` is `self` after the player with id `id` was put back in
    /// focus and the comparison title was filled with the players of the card.
    pub open spec fn compared(&self, other: &Self, id: Seq<char>, stats: Seq<(usize, usize)>, windows: bool) -> bool {
        &&& other.manager().entries() == self.manager().entries()
        &&& other.manager().focus() == focus_on(self.manager().entries(), id, self.manager().focus())
        &&& other.handler_of() == self.handler_of()
        &&& other.featured_manager() == self.featured_manager()
        &&& other.board() == self.board()
        &&& other.division() == self.division()
        &&& other.divisions() == self.divisions()
        &&& other.round() == self.round()
        &&& other.board_round() == self.board_round()
        &&& other.through() == self.through()
        &&& other.featured_hole_number() == self.featured_hole_number()
        &&& other.featured_count() == self.featured_count()
        &&& other.next_group_id() == self.next_group_id()
        &&& other.animated_index() == self.animated_index()
        &&& exists|np: Player| #![trigger is_null_player(np)] is_null_player(np)
            && other.sent() == self.sent() + part_cmds(
                card_compare(self.board(), self.players(), card_ids(self.manager()), stats, windows, self.players().len() as int)
                + null_compare(self.board(), np, windows, crate::queue::matched_players(self.manager().entries(), self.players()).len() as int, 4))
    }

    /// Sets the card to the group of the player in focus (the first group of
    /// the round that lists them, see `set_group`), puts them back in focus,
    /// and fills the comparison title with the players of the card (empty
    /// slots up to four).
    pub fn update_group_to_focused_player_group(&mut self, stats: &Vec<(usize, usize)>, windows: bool) -> (r: Result<(), Error>)
        requires
            old(self).handler_of().round() < old(self).handler_of().group_lists().len(),
            old(self).ready(),
            first_listing(old(self).round_groups(), old(self).focused().player_id@, 0) is Some,
            ({
                let g = first_listing(old(self).round_groups(), old(self).focused().player_id@, 0)->0;
                old(self).can_set_group(old(self).round_groups()[g].id@, stats@)
            }),
            forall|j: int| 0 <= j < old(self).players().len() ==> values_showable(#[trigger] old(self).players()[j], true),
        ensures
            r is Ok,
            ({
                let g = first_listing(old(self).round_groups(), old(self).focused().player_id@, 0)->0;
                exists|a: Self| #![trigger old(self).group_set_to(&a, old(self).round_groups()[g].id@, stats@)]
                    old(self).group_set_to(&a, old(self).round_groups()[g].id@, stats@)
                    && a.compared(&*final(self), old(self).focused().player_id@, stats@, windows)
            }),
    {
        let focused_id = self.focused_player().player_id.clone();
        let gid = {
            let groups = self.groups();
            let k = first_listing_index(groups, focused_id.as_str());
            groups[k].id.clone()
        };
        proof {
            lemma_group_with_id(old(self).round_groups(), gid@, 0);
            let g = first_listing(old(self).round_groups(), old(self).focused().player_id@, 0)->0;
            lemma_first_with_id_found(old(self).round_groups(), gid@, 0, g);
        }
        let res = self.set_group(gid.as_str(), stats);
        match res {
            Ok(()) => {},
            Err(e) => return Err(e),
        }
        let ghost a = *self;
        proof {
            assert(old(self).group_set_to(&a, gid@, stats@));
        }
        self.player_manager.set_focused(focused_id.as_str());
        proof {
            assert forall|j: int| 0 <= j < self.players().len() && card_ids(self.manager()).contains(self.players()[j].player_id@)
                implies values_showable(#[trigger] self.players()[j], true) by {
                lemma_board_totals_keep(old(self).players(), self.board(), j);
                assert(values_showable(old(self).players()[j], true));
            }
        }
        let mut compare = self.card_compare_calls(&self.player_manager, stats, windows);
        match self.add_null_players(&mut compare, &self.player_manager, windows) {
            Ok(()) => {},
            Err(e) => return Err(e),
        }
        self.queue_add(&compare);
        Ok(())
    }
}

/// The index of the first group that lists the player.
pub open spec fn first_listing(groups: Seq<Group>, id: Seq<char>, from: int) -> Option<int>
    decreases groups.len() - from,
{
    if from < 0 || from >= groups.len() {
        None
    } else if player_ids_of(groups[from]).contains(id) {
        Some(from)
    } else {
        first_listing(groups, id, from + 1)
    }
}

fn first_listing_index(groups: &Vec<Group>, id: &str) -> (r: usize)
    requires
        first_listing(groups@, id@, 0) is Some,
    ensures
        first_listing(groups@, id@, 0) == Some(r as int),
        r < groups@.len(),
{
    let mut i: usize = 0;
    while i < groups.len()
        invariant
            i <= groups@.len(),
            first_listing(groups@, id@, 0) is Some,
            first_listing(groups@, id@, 0) == first_listing(groups@, id@, i as int),
        decreases groups@.len() - i,
    {
        let ids = groups[i].player_ids();
        if crate::queue::contains_id(&ids, id) {
            return i;
        }
        i = i + 1;
    }
    i
}

proof fn lemma_first_with_id_found(groups: Seq<Group>, id: Seq<char>, from: int, g: int)
    requires
        0 <= from <= g < groups.len(),
        groups[g].id@ == id,
    ensures
        group_with_id(groups, id, from) is Some,
    decreases g - from,
{
    if groups[from].id@ != id {
        lemma_first_with_id_found(groups, id, from + 1, g);
    }
}


/// What new results of a round changed: whether anything did, whether a
/// player just played the last hole, and the group (and the division of its
/// first player) to feature next.
pub struct ResultsUpdate {
    pub changed: bool,
    pub finished: bool,
    pub feature: Option<(String, Division)>,
}

fn listing_index(groups: &Vec<Group>, id: &str) -> (r: Option<usize>)
    ensures
        match first_listing(groups@, id@, 0) {
            Some(k) => r matches Some(i) && i as int == k && k < groups@.len(),
            None => r is None,
        },
{
    proof {
        lemma_first_listing(groups@, id@, 0);
    }
    let mut i: usize = 0;
    while i < groups.len()
        invariant
            i <= groups@.len(),
            first_listing(groups@, id@, 0) == first_listing(groups@, id@, i as int),
        decreases groups@.len() - i,
    {
        let ids = groups[i].player_ids();
        if crate::queue::contains_id(&ids, id) {
            return Some(i);
        }
        i = i + 1;
    }
    None
}

proof fn lemma_first_listing(groups: Seq<Group>, id: Seq<char>, from: int)
    requires
        0 <= from,
    ensures
        first_listing(groups, id, from) matches Some(k) ==> from <= k < groups.len(),
    decreases groups.len() - from,
{
    if from < groups.len() && !player_ids_of(groups[from]).contains(id) {
        lemma_first_listing(groups, id, from + 1);
    }
}

impl FlipUpVMixCoordinator {
    /// Whether `other` is `self` after the board of the round was added and
    /// the players took their totals from it (see `add_state_to_leaderboard`).
    pub open spec fn board_added(&self, other: &Self) -> bool {
        &&& other.through() == self.focused().hole_shown_up_until as u8
        &&& exists|s: LeaderboardState| #![trigger board_with(self.board(), other.board(), s)]
            counted_state(s, self.round(), self.players(), self.previous()) && board_with(self.board(), other.board(), s)
        &&& other.players() == with_board_totals(self.players(), other.board())
        &&& other.handler_of().rounds() == self.handler_of().rounds().update(self.handler_of().container_round() as int, other.players())
        &&& self.same_setup(other)
        &&& other.sent() == self.sent()
    }

    /// What the finishing of a hole by the players of the round asks for: see
    /// `take_results`.
    pub open spec fn finish_news(&self, r: ResultsUpdate) -> bool {
        match first_finishing(self.players(), 0) {
            Some(k) => {
                &&& r.finished
                &&& match first_listing(self.round_groups(), self.players()[k].player_id@, 0) {
                    Some(g) => {
                        let group = self.round_groups()[g];
                        if group.players@.len() > 0 {
                            r.feature matches Some((gid, d)) && gid@ == group.id@ && d == group.players@[0].division
                        } else {
                            r.feature is None
                        }
                    },
                    None => r.feature is None,
                }
            },
            None => !r.finished && r.feature is None,
        }
    }

    /// Takes new results of a round: where they change the record, each player
    /// of the round takes their reports, the board of the round is added, and
    /// the first player who just played the last hole (if any) is reported
    /// with the first group listing them and the division of its first player.
    pub fn take_results(&mut self, map: &mut TjingResultMap, results: PlayerResults) -> (r: ResultsUpdate)
        requires
            old(self).ready(),
            old(self).handler_of().round() < old(self).handler_of().group_lists().len(),
            ({
                let (e, changed) = record_update_all(old(map).entries(), results.view_entries());
                changed ==> {
                    &&& forall|i: int| 0 <= i < old(self).players().len() ==> #[trigger] can_refresh(old(self).players()[i], e)
                    &&& forall|ps: Seq<Player>| #[trigger] all_refreshed(ps, old(self).players(), e) ==> {
                        &&& board_ready(ps, old(self).previous())
                        &&& forall|i: int| 0 <= i < ps.len() ==> #[trigger] ps[i].results.keys_fit()
                    }
                }
            }),
        ensures
            (final(map).entries(), r.changed) == record_update_all(old(map).entries(), results.view_entries()),
            !r.changed ==> *final(self) == *old(self) && !r.finished && r.feature is None,
            r.changed ==> exists|mid: Self| #![trigger old(self).refreshed_to(&mid, final(map).entries())]
                old(self).refreshed_to(&mid, final(map).entries()) && mid.board_added(&*final(self)) && final(self).finish_news(r),
    {
        let changed = map.update_all_players(results);
        if !changed {
            return ResultsUpdate { changed: false, finished: false, feature: None };
        }
        proof {
            crate::queue::lemma_first_player(old(self).players(), old(self).focus_id(), 0);
            assert(map.entries() == record_update_all(old(map).entries(), results.view_entries()).0);
        }
        {
            let players = self.handler.get_players_mut();
            refresh_all(map, players);
        }
        let ghost mid = *self;
        proof {
            assert(all_refreshed(mid.players(), old(self).players(), map.entries()));
            assert forall|j: int| 0 <= j < mid.players().len() implies (#[trigger] mid.players()[j]).player_id@ == old(self).players()[j].player_id@ by {
                assert(crate::results::refreshed(mid.players()[j], old(self).players()[j], map.entries()));
            }
            lemma_first_same_ids(mid.players(), old(self).players(), old(self).focus_id(), 0);
            assert(all_refreshed(mid.players(), old(self).players(), map.entries()));
            assert(mid.previous() == old(self).previous()) by {
                assert(crate::rust_handler::before_round(mid.handler_of().rounds(), mid.handler_of().container_round() as int)
                    =~= crate::rust_handler::before_round(old(self).handler_of().rounds(), old(self).handler_of().container_round() as int));
            }
            assert(mid.ready());
            assert(old(self).refreshed_to(&mid, map.entries()));
        }
        self.add_state_to_leaderboard();
        proof {
            assert(mid.board_added(&*self));
            assert forall|i: int| 0 <= i < self.players().len() implies #[trigger] self.players()[i].results.keys_fit() by {
                lemma_board_totals_keep(mid.players(), self.board(), i);
                assert(mid.players()[i].results.keys_fit());
            }
        }
        let k = crate::results::finishing_player(self.handler.round_player_list());
        proof {
            lemma_first_finishing(self.players(), 0);
        }
        let mut out = ResultsUpdate { changed: true, finished: false, feature: None };
        let ghost fin = *self;
        match k {
            Some(k) => {
                out.finished = true;
                let id = self.handler.round_player_list()[k].player_id.clone();
                assert(id@ == self.players()[k as int].player_id@);
                let groups = self.groups();
                assert(groups@ == self.round_groups());
                let idr: &str = id.as_str();
                let found = listing_index(groups, idr);
                proof {
                    lemma_first_listing(groups@, id@, 0);
                }
                match found {
                    Some(g) => {
                        let group = &groups[g];
                        assert(first_listing(groups@, id@, 0) == Some(g as int));
                        assert(first_listing(self.round_groups(), self.players()[k as int].player_id@, 0) == Some(g as int));
                        if group.players.len() > 0 {
                            let gid = group.id.clone();
                            let d = group.players[0].division.duplicate();
                            assert(gid@ == self.round_groups()[g as int].id@);
                            assert(d == self.round_groups()[g as int].players@[0].division);
                            out.feature = Some((gid, d));
                        }
                    },
                    None => {},
                }
                assert(first_finishing(self.players(), 0) == Some(k as int));
                assert(out.finished);
            },
            None => {},
        }
        proof {
            assert(fin == *self);
            assert(self.finish_news(out));
            assert(mid.board_added(&*self));
        }
        out
    }

    /// Whether `other` is `self` with each player of the round refreshed
    /// with the reports kept in `entries`, and nothing else changed.
    pub open spec fn refreshed_to(&self, other: &Self, entries: Seq<(Seq<char>, Seq<Option<crate::tjing::HoleResult>>)>) -> bool {
        &&& all_refreshed(other.players(), self.players(), entries)
        &&& other.handler_of().rounds() == self.handler_of().rounds().update(self.handler_of().container_round() as int, other.players())
        &&& self.same_setup(other)
        &&& other.board() == self.board()
        &&& other.sent() == self.sent()
        &&& other.through() == self.through()
    }
}

proof fn lemma_first_finishing(players: Seq<Player>, from: int)
    requires
        0 <= from,
    ensures
        first_finishing(players, from) matches Some(k) ==> from <= k < players.len(),
    decreases players.len() - from,
{
    if from < players.len() && first_finishing(players, from) != Some(from) {
        lemma_first_finishing(players, from + 1);
    }
}

/// The round score a player has on the latest board of their division, where
/// it is listed there.
pub open spec fn board_round_score(board: Leaderboard, p: Player) -> Option<isize> {
    let last = (board.states@.len() - 1) as usize;
    let cur = board.states@[board.current_index(last)->0];
    let f = in_division(cur.players@, p.division);
    match first_player_with_id(f, p.player_id@, 0) {
        Some(k) => Some(f[k].round_score),
        None => None,
    }
}

/// The entries and the focus after the queue moved on (see `PlayerManager::next_queued`).
pub open spec fn queue_moved(entries: Seq<QueueEntry>, focus: int) -> (Seq<QueueEntry>, int) {
    let stepped_entries = crate::queue::stepped(entries);
    let focus_after_step = match crate::queue::last_first_in_queue(entries) {
        Some(k) => focus_on(stepped_entries, entries[k].id, focus),
        None => focus,
    };
    let focused_id = stepped_entries[focus_after_step].id;
    let t = crate::queue::tidied(stepped_entries, focused_id);
    (t, focus_on(t, focused_id, focus_after_step))
}

/// A player whose round score is counted from the results before index
/// `up_until` and added to the total (see `Player::fix_round_score`).
pub open spec fn fixed_round(p: Player, up_until: u8) -> (isize, isize) {
    let r = relative_sum(p.rs(), counted_holes(p.rs().len() as int, Some(up_until)));
    (r as isize, (p.total_score + r) as isize)
}

/// Whether the round score of a player can be counted from the results
/// before index `up_until` and added to the total.
pub open spec fn can_fix_round(p: Player, up_until: u8) -> bool {
    let n = counted_holes(p.rs().len() as int, Some(up_until));
    &&& forall|i: int| 0 <= i < n ==> #[trigger] p.rs()[i].fits()
    &&& forall|k: int| 0 <= k <= n ==> isize::MIN <= #[trigger] relative_sum(p.rs(), k) <= isize::MAX
    &&& isize::MIN <= p.total_score + relative_sum(p.rs(), n) <= isize::MAX
}

impl FlipUpVMixCoordinator {
    /// Whether `other` is `self` after the queue moved on and the player now
    /// in focus was set to a total of zero (the first steps of `next_queued`).
    pub open spec fn queue_stepped(&self, other: &Self) -> bool {
        let (entries, focus) = queue_moved(self.manager().entries(), self.manager().focus());
        &&& other.manager().entries() == entries
        &&& other.manager().focus() == focus
        &&& other.ready()
        &&& other.players().len() == self.players().len()
        &&& other.players() == self.players().update(other.focus_index(), Player { total_score: 0, ..self.players()[other.focus_index()] })
        &&& other.handler_of().rounds() == self.handler_of().rounds().update(self.handler_of().container_round() as int, other.players())
        &&& other.handler_of().container_round() == self.handler_of().container_round()
        &&& other.handler_of().round() == self.handler_of().round()
        &&& other.handler_of().chosen() == self.handler_of().chosen()
        &&& other.handler_of().division_list() == self.handler_of().division_list()
        &&& other.handler_of().round_id_lists() == self.handler_of().round_id_lists()
        &&& other.handler_of().group_lists() == self.handler_of().group_lists()
        &&& other.featured_manager() == self.featured_manager()
        &&& other.board() == self.board()
        &&& other.division() == self.division()
        &&& other.divisions() == self.divisions()
        &&& other.round() == self.round()
        &&& other.board_round() == self.board_round()
        &&& other.through() == self.through()
        &&& other.featured_hole_number() == self.featured_hole_number()
        &&& other.featured_count() == self.featured_count()
        &&& other.next_group_id() == self.next_group_id()
        &&& other.animated_index() == self.animated_index()
        &&& other.sent() == self.sent()
    }

    /// The player in focus after their round score was counted up to the hole
    /// they were shown through and their total taken from their row of the
    /// board (see `next_queued`).
    pub open spec fn recounted(&self, up_until: u8) -> Player {
        let p = self.focused();
        let (round, total) = fixed_round(p, up_until);
        let q = Player { round_score: round, total_score: total, ..p };
        match (board_total(self.board(), q), board_round_score(self.board(), q)) {
            (Some(t), Some(rr)) => Player { total_score: (t - rr + q.round_score) as isize, ..q },
            _ => q,
        }
    }

    /// What moving the queue on needs (see `next_queued`).
    pub open spec fn can_move_queue(&self, stats: Seq<(usize, usize)>) -> bool {
        let (entries, focus) = queue_moved(self.manager().entries(), self.manager().focus());
        &&& self.ready()
        &&& stats.len() == self.players().len()
        &&& 0 <= focus < entries.len()
        &&& first_player_with_id(self.players(), entries[focus].id, 0) is Some
        &&& forall|b: Self| #[trigger] self.queue_stepped(&b) ==> {
            &&& board_ready(b.players(), b.previous())
            &&& forall|c: Self| #[trigger] b.board_added(&c) ==> {
                let up = c.focused().hole_shown_up_until as u8;
                let p = c.focused();
                let (round, total) = fixed_round(p, up);
                let q = Player { round_score: round, total_score: total, ..p };
                &&& can_fix_round(p, up)
                &&& board_total(c.board(), q) matches Some(t) ==> (board_round_score(c.board(), q) matches Some(rr)
                    && isize::MIN <= t - rr <= isize::MAX && isize::MIN <= t - rr + q.round_score <= isize::MAX)
                &&& card_showable(p, false)
            }
        }
    }

    /// Moves the queue on (see `PlayerManager::next_queued`): the player now in
    /// focus starts from a total of zero, the board of the round is added,
    /// their round score is counted up to the hole they are shown through and
    /// their total taken from their row of the board, and their scorecard is
    /// filled.
    pub fn next_queued(&mut self, stats: &Vec<(usize, usize)>) -> (r: Result<(), Error>)
        requires
            old(self).can_move_queue(stats@),
        ensures
            r is Ok,
            exists|b: Self, c: Self| #![trigger old(self).queue_stepped(&b), b.board_added(&c)]
                old(self).queue_stepped(&b) && b.board_added(&c)
                && c.same_setup(&*final(self))
                && final(self).board() == c.board()
                && final(self).through() == c.through()
                && final(self).focus_index() == c.focus_index()
                && final(self).players() == c.players().update(c.focus_index(), c.recounted(c.focused().hole_shown_up_until as u8))
                && final(self).sent() == c.sent() + values_cmds(c.board(), final(self).focused(), false, stats@[c.focus_index()]),
    {
        self.step_queue();
        let ghost b = *self;
        proof {
            assert(old(self).queue_stepped(&b));
        }
        self.add_state_to_leaderboard();
        let ghost c = *self;
        proof {
            assert(b.board_added(&c));
            crate::queue::lemma_first_player(b.players(), b.focus_id(), 0);
            lemma_first_same_ids(c.players(), b.players(), b.focus_id(), 0);
            lemma_board_totals_keep(b.players(), c.board(), b.focus_index());
            assert(c.ready());
            assert(c.focus_index() == b.focus_index());
        }
        self.recount_focused();
        let ghost e = *self;
        proof {
            assert(b.players().len() == old(self).players().len());
            assert(c.players().len() == b.players().len());
            assert(e.players().len() == c.players().len());
        }
        let k = self.focus_position();
        let stat = stats[k];
        self.fill_focused(stat);
        proof {
            assert(self.sent() == c.sent() + values_cmds(c.board(), self.focused(), false, stats@[c.focus_index()]));
        }
        Ok(())
    }

    fn step_queue(&mut self)
        requires
            ({
                let (entries, focus) = queue_moved(old(self).manager().entries(), old(self).manager().focus());
                &&& old(self).ready()
                &&& 0 <= focus < entries.len()
                &&& first_player_with_id(old(self).players(), entries[focus].id, 0) is Some
            }),
        ensures
            old(self).queue_stepped(&*final(self)),
    {
        self.player_manager.next_queued();
        let ghost a = *self;
        proof {
            assert(a.ready());
            crate::queue::lemma_first_player(a.players(), a.focus_id(), 0);
        }
        {
            let p = self.focused_player_mut();
            p.total_score = 0;
        }
        proof {
            let q = Player { total_score: 0, ..a.focused() };
            lemma_focus_kept(a, *self, q);
        }
    }

    fn recount_focused(&mut self)
        requires
            old(self).ready(),
            old(self).board().states@.len() > 0,
            ({
                let up = old(self).focused().hole_shown_up_until as u8;
                let p = old(self).focused();
                let (round, total) = fixed_round(p, up);
                let q = Player { round_score: round, total_score: total, ..p };
                &&& can_fix_round(p, up)
                &&& board_total(old(self).board(), q) matches Some(t) ==> (board_round_score(old(self).board(), q) matches Some(rr)
                    && isize::MIN <= t - rr <= isize::MAX && isize::MIN <= t - rr + q.round_score <= isize::MAX)
            }),
        ensures
            old(self).focus_changed(&*final(self), old(self).recounted(old(self).focused().hole_shown_up_until as u8)),
            final(self).ready(),
            final(self).focus_index() == old(self).focus_index(),
            final(self).focused() == old(self).recounted(old(self).focused().hole_shown_up_until as u8),
            final(self).sent() == old(self).sent(),
    {
        proof {
            crate::queue::lemma_first_player(self.players(), self.focus_id(), 0);
        }
        let ghost c = *self;
        let up_until = #[verifier::truncate] (self.focused_player().hole_shown_up_until as u8);
        {
            let p = self.focused_player_mut();
            p.fix_round_score(Some(up_until));
        }
        let ghost d = *self;
        proof {
            let (round, total) = fixed_round(c.focused(), up_until);
            lemma_focus_kept(c, d, Player { round_score: round, total_score: total, ..c.focused() });
        }
        let row = self.leaderboard.get_lb_player(self.focused_player());
        match row {
            Some(row) => {
                let cur = self.focused_player().round_score;
                let total = row.total_score - row.round_score + cur;
                let ghost dq = d.focused();
                {
                    let p = self.focused_player_mut();
                    p.total_score = total;
                }
                proof {
                    lemma_focus_kept(d, *self, Player { total_score: total, ..dq });
                }
            },
            None => {},
        }
        proof {
            assert(self.focused() == c.recounted(up_until));
            assert(self.players() =~= c.players().update(c.focus_index(), c.recounted(up_until)));
            assert(self.handler_of().rounds() =~= c.handler_of().rounds().update(
                c.handler_of().container_round() as int, c.players().update(c.focus_index(), c.recounted(up_until))));
        }
    }

    fn fill_focused(&mut self, stat: (usize, usize))
        requires
            old(self).ready(),
            old(self).board().states@.len() > 0,
            card_showable(old(self).focused(), false),
        ensures
            old(self).only_sent(&*final(self), old(self).sent() + values_cmds(old(self).board(), old(self).focused(), false, stat)),
    {
        proof {
            crate::player::lemma_latest_showable(self.focused().results);
        }
        let all = match self.focused_player().set_all_values(&self.leaderboard, false, stat.0, stat.1) {
            Ok(v) => v,
            Err(_) => {
                proof {
                    assert(false);
                }
                Vec::new()
            },
        };
        let current = self.focused_player().set_all_current_player_values(all.as_slice());
        self.queue_add(&all);
        self.queue_add(&current);
        proof {
            assert(self.sent() =~= old(self).sent() + values_cmds(old(self).board(), old(self).focused(), false, stat));
        }
    }

    /// Whether `other` is `self` with only the commands sent changed, to `sent`.
    pub open spec fn only_sent(&self, other: &Self, sent: Seq<Seq<char>>) -> bool {
        &&& other.handler_of() == self.handler_of()
        &&& other.manager() == self.manager()
        &&& other.featured_manager() == self.featured_manager()
        &&& other.board() == self.board()
        &&& other.division() == self.division()
        &&& other.divisions() == self.divisions()
        &&& other.round() == self.round()
        &&& other.board_round() == self.board_round()
        &&& other.through() == self.through()
        &&& other.featured_hole_number() == self.featured_hole_number()
        &&& other.featured_count() == self.featured_count()
        &&& other.next_group_id() == self.next_group_id()
        &&& other.animated_index() == self.animated_index()
        &&& other.sent() == sent
    }
}

/// The player before the hole after `x` is scored: shown through hole `x`.
pub open spec fn shown_through(p: Player, x: int) -> Player {
    Player { hole_shown_up_until: x as usize, ..p }
}

/// Whether `qs` are the steps of scoring holes one after another from `b`:
/// step `x + 1` is step `x` shown through hole `x + 1`, then scored.
pub open spec fn hole_chain(qs: Seq<Player>, b: Player) -> bool {
    &&& qs.len() >= 1
    &&& qs[0] == b
    &&& forall|x: int| 0 <= x < qs.len() - 1 ==> #[trigger] increased(qs[x + 1], shown_through(qs[x], x + 1))
}

/// The scorecard calls of the steps of a chain.
pub open spec fn chain_calls(qs: Seq<Player>) -> Seq<(VMixFunction, Option<VMixPlayerInfo>, Option<Seq<char>>)>
    decreases qs.len(),
{
    if qs.len() <= 1 {
        seq![]
    } else {
        chain_calls(qs.drop_last()) + increase_calls(qs.last(), shown_through(qs[qs.len() - 2], qs.len() - 1))
    }
}

/// The current-player calls of the steps of a chain.
pub open spec fn chain_current(qs: Seq<Player>) -> Seq<(VMixFunction, Option<CurrentPlayer>, Option<Seq<char>>)>
    decreases qs.len(),
{
    if qs.len() <= 1 {
        seq![]
    } else {
        chain_current(qs.drop_last()) + current_view(qs.last(), increase_calls(qs.last(), shown_through(qs[qs.len() - 2], qs.len() - 1)))
    }
}

impl FlipUpVMixCoordinator {
    /// What scoring the holes up to `hole` needs: each step can be scored and
    /// its latest holes shown.
    pub open spec fn can_score_to(&self, hole: usize) -> bool {
        &&& self.ready()
        &&& forall|qs: Seq<Player>| #[trigger] hole_chain(qs, self.focused()) && qs.len() <= hole ==> {
            let pre = shown_through(qs.last(), qs.len() as int);
            &&& can_increase(pre)
            &&& latest_showable(scored_rs(pre), pre.results.start_at_hole)
        }
    }

    /// Scores the holes after holes `1` to `hole` for the player in focus, one
    /// after another (see `hole_chain`), then sends the scorecard calls of all
    /// steps and those of the current-player view.
    pub fn set_to_hole(&mut self, hole: usize) -> (r: Result<(), Error>)
        requires
            old(self).can_score_to(hole),
            hole < usize::MAX,
        ensures
            r is Ok,
            exists|qs: Seq<Player>| #![trigger hole_chain(qs, old(self).focused())]
                hole_chain(qs, old(self).focused()) && qs.len() == hole + 1
                && old(self).focus_changed(&*final(self), qs.last())
                && final(self).sent() == old(self).sent() + part_cmds(chain_calls(qs)) + part_cmds(chain_current(qs)),
    {
        proof {
            crate::queue::lemma_first_player(old(self).players(), old(self).focus_id(), 0);
        }
        let mut player_interfaces: Vec<VMixInterfacer<VMixPlayerInfo>> = Vec::new();
        let mut current_player_interfaces: Vec<VMixInterfacer<CurrentPlayer>> = Vec::new();
        let ghost mut chain: Seq<Player> = seq![old(self).focused()];
        proof {
            assert(old(self).focus_changed(&*self, old(self).focused())) by {
                assert(old(self).players().update(old(self).focus_index(), old(self).focused()) =~= old(self).players());
                assert(self.handler_of().rounds() =~= old(self).handler_of().rounds().update(
                    old(self).handler_of().container_round() as int, old(self).players()));
            }
        }
        let mut x: usize = 1;
        while x <= hole
            invariant
                1 <= x <= hole + 1,
                hole < usize::MAX,
                old(self).can_score_to(hole),
                old(self).ready(),
                hole_chain(chain, old(self).focused()),
                chain.len() == x,
                old(self).focus_changed(&*self, chain.last()),
                self.ready(),
                self.focus_index() == old(self).focus_index(),
                0 <= old(self).focus_index() < old(self).players().len(),
                self.focused() == chain.last(),
                self.sent() == old(self).sent(),
                parts_of(player_interfaces@) == chain_calls(chain),
                parts_of(current_player_interfaces@) == chain_current(chain),
            decreases hole + 1 - x,
        {
            let ghost prev = *self;
            let ghost before = chain;
            proof {
                assert(can_increase(shown_through(chain.last(), x as int)));
            }
            let (mut all_values, mut current) = self.score_step(x);
            let ghost q = self.focused();
            proof {
                chain = before.push(q);
                assert(chain.drop_last() =~= before);
                assert(hole_chain(chain, old(self).focused()));
                assert(self.players() =~= old(self).players().update(old(self).focus_index(), q));
                assert(self.handler_of().rounds() =~= old(self).handler_of().rounds().update(
                    old(self).handler_of().container_round() as int, self.players()));
            }
            player_interfaces.append(&mut all_values);
            current_player_interfaces.append(&mut current);
            x = x + 1;
        }
        self.queue_add(&player_interfaces);
        self.queue_add(&current_player_interfaces);
        Ok(())
    }
}

impl FlipUpVMixCoordinator {
    /// Shows the player in focus through hole `x` and scores the hole after it.
    fn score_step(&mut self, x: usize) -> (r: (Vec<VMixInterfacer<VMixPlayerInfo>>, Vec<VMixInterfacer<CurrentPlayer>>))
        requires
            old(self).ready(),
            can_increase(shown_through(old(self).focused(), x as int)),
            latest_showable(scored_rs(shown_through(old(self).focused(), x as int)), old(self).focused().results.start_at_hole),
        ensures
            increased(final(self).focused(), shown_through(old(self).focused(), x as int)),
            old(self).focus_changed(&*final(self), final(self).focused()),
            final(self).ready(),
            final(self).focus_index() == old(self).focus_index(),
            final(self).sent() == old(self).sent(),
            parts_of(r.0@) == increase_calls(final(self).focused(), shown_through(old(self).focused(), x as int)),
            parts_of(r.1@) == current_view(final(self).focused(), increase_calls(final(self).focused(), shown_through(old(self).focused(), x as int))),
    {
        proof {
            crate::queue::lemma_first_player(old(self).players(), old(self).focus_id(), 0);
        }
        let res = {
            let p = self.focused_player_mut();
            p.hole_shown_up_until = x;
            p.increase_score()
        };
        let ghost q = self.players()[old(self).focus_index()];
        proof {
            assert(increased(q, shown_through(old(self).focused(), x as int)));
            lemma_focus_kept(*old(self), *self, q);
            crate::player::lemma_latest_showable(q.results);
        }
        let all_values = match res {
            Ok(v) => v,
            Err(_) => {
                proof {
                    assert(false);
                }
                Vec::new()
            },
        };
        let current = self.focused_player().set_all_current_player_values(all_values.as_slice());
        (all_values, current)
    }
}

/// One more throw and then one less leave the players of the round as they
/// were: `b` is `a` after `increase_throw`, `c` is `b` after `decrease_throw`.
pub proof fn lemma_throw_undone(a: FlipUpVMixCoordinator, b: FlipUpVMixCoordinator, c: FlipUpVMixCoordinator)
    requires
        a.ready(),
        a.focused().throws < u8::MAX,
        a.focus_changed(&b, Player { throws: (a.focused().throws + 1) as u8, ..a.focused() }),
        b.focus_changed(&c, Player { throws: (b.focused().throws - 1) as u8, ..b.focused() }),
    ensures
        c.players() == a.players(),
        c.handler_of().rounds() == a.handler_of().rounds(),
        c.manager() == a.manager(),
        c.board() == a.board(),
{
    let q1 = Player { throws: (a.focused().throws + 1) as u8, ..a.focused() };
    crate::queue::lemma_first_player(a.players(), a.focus_id(), 0);
    lemma_focus_kept(a, b, q1);
    let q2 = Player { throws: (b.focused().throws - 1) as u8, ..b.focused() };
    assert(q2 == a.focused());
    lemma_focus_kept(b, c, q2);
    assert(c.players() =~= a.players());
    assert(c.handler_of().rounds() =~= a.handler_of().rounds());
}

} // verus!
