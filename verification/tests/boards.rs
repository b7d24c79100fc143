use flipup_vmix::division::Division;
use flipup_vmix::hole::{Hole, Holes};
use flipup_vmix::leaderboard_cycle::LeaderboardCycle;
use flipup_vmix::player::{BroadcastType, Player};
use flipup_vmix::results::TjingResultMap;
use flipup_vmix::standings::{Leaderboard, LeaderboardMovement, LeaderboardState};
use flipup_vmix::tjing;

fn division(id: &str, name: &str) -> Division {
    Division { id: id.to_string(), name: name.to_string(), short_name: name.to_string() }
}

fn course() -> Holes {
    Holes::from_vec_hole((1..=18u8).map(|h| Hole { length: 90, par: 3, hole: h }).collect())
}

/// A player of the division who has played the first hole in `throws`.
fn in_division(id: &str, div: &Division, throws: u8) -> Player {
    let mut p = Player::null_player();
    p.player_id = id.to_string();
    p.name = id.to_string();
    p.division = div.clone();
    p.holes = course();
    p.throws = throws;
    p.increase_score().ok().unwrap();
    p
}

fn report(hole: usize, score: usize) -> tjing::HoleResult {
    tjing::HoleResult {
        score,
        hole_number: hole,
        par: 3,
        is_circle_hit: false,
        is_inside_putt: false,
        is_out_of_bounds: false,
        is_outside_putt: false,
        is_verified: false,
    }
}

#[test]
fn movement_between_two_positions() {
    assert_eq!(LeaderboardMovement::new(2, 5), LeaderboardMovement::Down(3));
    assert_eq!(LeaderboardMovement::new(5, 2), LeaderboardMovement::Up(3));
    assert_eq!(LeaderboardMovement::new(4, 4), LeaderboardMovement::Same);
}

#[test]
fn the_cycle_skips_the_featured_division_and_divisions_with_one_place() {
    let open = division("d1", "Open");
    let women = division("d2", "Women");
    let masters = division("d3", "Masters");
    let players = vec![
        in_division("a", &open, 2),
        in_division("b", &open, 4),
        in_division("c", &women, 3),
        in_division("d", &masters, 2),
        in_division("e", &masters, 5),
    ];
    let state = LeaderboardState::new(0, players, vec![]);
    let board = Leaderboard { states: vec![state], skip: 0, cycle: false, broadcast_type: BroadcastType::Live };
    let mut cycle = LeaderboardCycle::new(
        vec![open.clone(), women.clone(), masters.clone()],
        board,
        0,
        open.clone(),
        "g1".to_string(),
    );
    assert!(cycle.leaderboard.cycle);
    let (next, small) = cycle.cycle_next();
    assert_eq!(next.id, "d3");
    assert!(small);
    let order: Vec<String> = cycle.all_divisions.iter().map(|d| d.id.clone()).collect();
    assert_eq!(order, vec!["d1", "d2", "d3"]);
    let mut ids = order.clone();
    ids.sort();
    assert_eq!(ids, vec!["d1", "d2", "d3"]);
}

#[test]
fn the_result_record_takes_new_scores_and_new_holes() {
    let mut p = Player::null_player();
    p.player_id = "a".to_string();
    let mut map = TjingResultMap::new(&vec![p]);
    assert!(map.update("a", report(1, 3)));
    assert!(!map.update("a", report(1, 3)));
    assert!(map.update("a", report(1, 4)));
    assert!(map.update("b", report(2, 2)));
    let view: Vec<(String, Vec<Option<usize>>)> = map
        .results
        .iter()
        .map(|(id, rs)| (id.clone(), rs.iter().map(|r| r.map(|h| h.score)).collect()))
        .collect();
    assert_eq!(view, vec![("a".to_string(), vec![Some(4)]), ("b".to_string(), vec![Some(2)])]);
}
