//! What the web interface is told after an action: the managed players, the
//! hole in view, the divisions, the rounds, and that a hole was finished.
use vstd::prelude::*;

use crate::coordinator::FlipUpVMixCoordinator;
use crate::division::Division;

verus! {

/// The managed players, for the interface.
pub struct PlayerManagerUpdate {
    pub players: Vec<crate::dto::Player>,
}

impl PlayerManagerUpdate {
    /// The managed players of the coordinator (see `FlipUpVMixCoordinator::dto_players`).
    pub fn from(coordinator: &FlipUpVMixCoordinator) -> (r: Self)
        requires
            coordinator.handler_of().container_round() < coordinator.handler_of().rounds().len(),
        ensures
            r.players@.map_values(|d: crate::dto::Player| crate::queue::dto_view(d)) == crate::queue::listed(
                coordinator.manager().entries(),
                coordinator.manager().focus(),
                coordinator.players(),
                false,
                coordinator.manager().entries().len() as int,
            ),
    {
        PlayerManagerUpdate { players: coordinator.dto_players() }
    }
}

/// The hole in view, counted from one.
pub struct HoleUpdate {
    pub hole: usize,
}

impl HoleUpdate {
    /// The hole after the last one shown of the player in focus.
    pub fn from(coordinator: &FlipUpVMixCoordinator) -> (r: Self)
        requires
            coordinator.ready(),
            coordinator.focused().hole_shown_up_until < usize::MAX,
        ensures
            r.hole == coordinator.focused().hole_shown_up_until + 1,
    {
        HoleUpdate { hole: coordinator.current_hole() + 1 }
    }
}

/// The divisions, with the one on the leaderboard marked.
pub struct DivisionUpdate {
    pub divisions: Vec<crate::dto::Division>,
}

/// The divisions for the interface: their names, the one with the id of the
/// division on the leaderboard marked.
pub open spec fn division_listing(divs: Seq<Division>, shown: Division) -> Seq<(Seq<char>, bool)> {
    divs.map_values(|d: Division| (d.name@, d.id@ == shown.id@))
}

impl DivisionUpdate {
    /// The divisions of the coordinator (see `division_listing`).
    pub fn from(coordinator: &FlipUpVMixCoordinator) -> (r: Self)
        ensures
            r.divisions@.map_values(|d: crate::dto::Division| (d.name@, d.focused))
                == division_listing(coordinator.divisions(), coordinator.division()),
    {
        let divs = coordinator.all_divisions();
        let shown = coordinator.leaderboard_division();
        let mut out: Vec<crate::dto::Division> = Vec::new();
        let mut i: usize = 0;
        while i < divs.len()
            invariant
                i <= divs@.len(),
                out@.map_values(|d: crate::dto::Division| (d.name@, d.focused)) =~= division_listing(divs@.take(i as int), *shown),
            decreases divs@.len() - i,
        {
            let focused = crate::text::str_eq(divs[i].id.as_str(), shown.id.as_str());
            let ghost before = out@;
            out.push(crate::dto::Division { name: divs[i].name.clone(), focused });
            proof {
                assert(out@.map_values(|d: crate::dto::Division| (d.name@, d.focused))
                    =~= before.map_values(|d: crate::dto::Division| (d.name@, d.focused)).push((divs@[i as int].name@, focused)));
                assert(divs@.take(i + 1) =~= divs@.take(i as int).push(divs@[i as int]));
            }
            i = i + 1;
        }
        proof {
            assert(divs@.take(divs@.len() as int) =~= divs@);
        }
        DivisionUpdate { divisions: out }
    }
}

/// The rounds, with the one on the leaderboard marked.
pub struct LeaderboardRoundUpdate {
    pub rounds: Vec<crate::dto::SimpleRound>,
}

impl LeaderboardRoundUpdate {
    /// The rounds of the coordinator (see `FlipUpVMixCoordinator::dto_rounds`).
    pub fn from(coordinator: &FlipUpVMixCoordinator) -> (r: Self)
        requires
            forall|i: int| 0 <= i < coordinator.rounds_listing().len() ==> (#[trigger] coordinator.rounds_listing()[i]).len() == 3,
        ensures
            r.rounds@.len() == coordinator.rounds_listing().len(),
            forall|i: int| 0 <= i < r.rounds@.len() ==> {
                &&& (#[trigger] r.rounds@[i]).number == i + 1
                &&& r.rounds@[i].id@.map_values(|s: String| s@) == coordinator.rounds_listing()[i]
                &&& r.rounds@[i].selected == (i == coordinator.board_round())
            },
    {
        LeaderboardRoundUpdate { rounds: coordinator.dto_rounds() }
    }
}

/// That a player finished the last hole, and its reminder a while later.
#[derive(Clone, Copy, Debug, PartialEq, Eq, Structural)]
pub enum HoleFinishedAlert {
    JustFinished,
    SecondSend,
}

impl HoleFinishedAlert {
    /// A coordinator reports a hole just finished.
    pub fn from(coordinator: &FlipUpVMixCoordinator) -> (r: Self)
        ensures
            r == HoleFinishedAlert::JustFinished,
    {
        HoleFinishedAlert::JustFinished
    }

    /// The text sent to the interface: `NU` when just finished, `SEN` for the reminder.
    pub fn try_into_message(self) -> (r: Option<String>)
        ensures
            r matches Some(m) && m@ == match self {
                HoleFinishedAlert::JustFinished => "NU"@,
                HoleFinishedAlert::SecondSend => "SEN"@,
            },
    {
        match self {
            HoleFinishedAlert::JustFinished => Some(String::from_str("NU")),
            HoleFinishedAlert::SecondSend => Some(String::from_str("SEN")),
        }
    }
}

} // verus!
