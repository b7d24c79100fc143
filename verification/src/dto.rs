//! What the controller's web interface shows of its state.
use vstd::prelude::*;

use crate::division::Division as EventDivision;
use crate::player::Player as EventPlayer;
use crate::round::done_results;
use crate::text::{clone_opt, opt_view};

verus! {

/// A division as the interface lists it: its name, and whether the
/// leaderboard shows it.
#[derive(Clone, Debug)]
pub struct Division {
    pub name: String,
    pub focused: bool,
}

/// A player as the interface lists it.
#[derive(Clone, Debug)]
pub struct Player {
    pub id: String,
    pub name: String,
    pub image_url: Option<String>,
    pub focused: bool,
    pub holes_finished: usize,
    pub index: usize,
    pub queue: Option<usize>,
    pub division: EventDivision,
}

/// The hole and throws a player is put in the queue with.
#[derive(Clone, Copy, Debug, PartialEq, Eq, Structural)]
pub struct HoleSetting {
    pub hole: Option<u8>,
    pub throws: Option<u8>,
}

impl Player {
    pub fn new(
        id: String,
        name: String,
        image_url: Option<String>,
        holes_finished: usize,
        index: usize,
        queue: Option<usize>,
        division: EventDivision,
    ) -> (r: Self)
        ensures
            r.id@ == id@,
            r.name@ == name@,
            opt_view(r.image_url) == opt_view(image_url),
            !r.focused,
            r.holes_finished == holes_finished,
            r.index == index,
            r.queue == queue,
            r.division == division,
    {
        Player { id, name, image_url, focused: false, holes_finished, index, queue, division }
    }

    /// The listing of a player of the event, with its place in the queue.
    pub fn from_normal_player(player: &EventPlayer, queue: Option<usize>) -> (r: Self)
        ensures
            r.id@ == player.player_id@,
            r.name@ == player.name@,
            opt_view(r.image_url) == opt_view(player.image_url),
            !r.focused,
            r.holes_finished == done_results(player.rs()).len(),
            r.index == player.group_index,
            r.queue == queue,
            r.division.id@ == player.division.id@,
            r.division.name@ == player.division.name@,
            r.division.short_name@ == player.division.short_name@,
    {
        Player {
            id: player.player_id.clone(),
            name: player.name.clone(),
            image_url: clone_opt(&player.image_url),
            focused: false,
            holes_finished: player.amount_of_holes_finished(),
            index: player.group_index,
            queue,
            division: player.division.duplicate(),
        }
    }

    /// The listing of a player of the event, outside the queue.
    pub fn from(player: &EventPlayer) -> (r: Self)
        ensures
            r.id@ == player.player_id@,
            r.name@ == player.name@,
            opt_view(r.image_url) == opt_view(player.image_url),
            !r.focused,
            r.holes_finished == done_results(player.rs()).len(),
            r.index == player.group_index,
            r.queue is None,
            r.division.id@ == player.division.id@,
            r.division.name@ == player.division.name@,
            r.division.short_name@ == player.division.short_name@,
    {
        Self::from_normal_player(player, None)
    }
}

/// A round as the interface lists it: its number from one, the ids it has in
/// the three events, and whether the leaderboard shows it.
#[derive(Clone, Debug)]
pub struct SimpleRound {
    pub number: usize,
    pub id: [String; 3],
    pub selected: bool,
}

impl SimpleRound {
    pub fn new(round: usize, id: [String; 3], selected: bool) -> (r: Self)
        requires
            round < usize::MAX,
        ensures
            r.number == round + 1,
            r.id@ == id@,
            r.selected == selected,
    {
        SimpleRound { number: round + 1, id, selected }
    }
}

/// What a coordinator is built from.
#[derive(Clone, Debug)]
pub struct CoordinatorBuilder {
    pub ip: String,
    pub event_ids: Vec<String>,
    pub round: usize,
    pub featured_hole: u8,
    pub broadcast_type: crate::player::BroadcastType,
}

impl CoordinatorBuilder {
    pub fn new(
        ip: String,
        event_ids: Vec<String>,
        round: usize,
        featured_hole: u8,
        broadcast_type: crate::player::BroadcastType,
    ) -> (r: Self)
        ensures
            r.ip@ == ip@,
            r.event_ids@ == event_ids@,
            r.round == round,
            r.featured_hole == featured_hole,
            r.broadcast_type == broadcast_type,
    {
        CoordinatorBuilder { ip, event_ids, round, featured_hole, broadcast_type }
    }
}

} // verus!
