use flipup_vmix::hole::{Hole, Holes};
use flipup_vmix::player::Player;
use flipup_vmix::round::HoleResult;
use flipup_vmix::sort::stable_sort;
use flipup_vmix::standings::players_with_positions;

fn course() -> Holes {
    let mut holes = Vec::new();
    for h in (1..=18u8).rev() {
        holes.push(Hole { length: 100 + h as u16, par: if h % 3 == 0 { 4 } else { 3 }, hole: h });
    }
    Holes::from_vec_hole(holes)
}

fn player(id: &str) -> Player {
    let mut p = Player::null_player();
    p.player_id = id.to_string();
    p.name = format!("{id} Player");
    p.holes = course();
    p
}

#[test]
fn holes_are_kept_by_number() {
    let holes = course();
    let numbers: Vec<u8> = holes.holes.iter().map(|h| h.hole).collect();
    assert_eq!(numbers, (1..=18).collect::<Vec<u8>>());
    assert_eq!(holes.find_hole(6).unwrap().par, 4);
    assert!(holes.find_hole(19).is_none());
}

#[test]
fn a_new_result_starts_at_par() {
    let holes = course();
    let r = HoleResult::new(3, &holes).ok().unwrap();
    assert_eq!(r.throws, 4);
    assert_eq!(r.actual_score(), 0);
    assert!(HoleResult::new(40, &holes).is_err());
}

#[test]
fn scoring_a_hole_adds_to_round_and_total() {
    let mut p = player("p1");
    p.throws = 2;
    let calls = p.increase_score().ok().unwrap();
    assert_eq!(p.hole_shown_up_until, 1);
    assert_eq!(p.round_score, -1);
    assert_eq!(p.total_score, -1);
    assert_eq!(p.throws, 0);
    assert!(p.first_scored);
    let cmds: Vec<String> = calls.iter().map(|c| c.to_cmd()).collect();
    assert!(cmds.iter().any(|c| c.contains("SelectedName=p1scoretot.Text&Value=-1")));
    assert!(cmds.iter().all(|c| c.starts_with("FUNCTION ") && c.ends_with("\r\n")));
}

#[test]
fn reverting_a_scored_hole_restores_the_player() {
    let mut p = player("p2");
    p.throws = 5;
    p.increase_score().ok().unwrap();
    assert_eq!(p.round_score, 2);
    let calls = p.revert_hole_score();
    assert!(!calls.is_empty());
    assert_eq!(p.hole_shown_up_until, 0);
    assert_eq!(p.round_score, 0);
    assert_eq!(p.total_score, 0);
    assert!(p.results.results.is_empty());
}

#[test]
fn reverting_with_nothing_shown_changes_nothing() {
    let mut p = player("p3");
    let calls = p.revert_hole_score();
    assert!(calls.is_empty());
    assert_eq!(p.hole_shown_up_until, 0);
}

#[test]
fn resetting_empties_the_round() {
    let mut p = player("p4");
    p.throws = 3;
    p.increase_score().ok().unwrap();
    p.throws = 4;
    p.increase_score().ok().unwrap();
    p.total_score = 7;
    let calls = p.reset_scores();
    assert!(!calls.is_empty());
    assert_eq!(p.hole_shown_up_until, 0);
    assert_eq!(p.round_score, 0);
    assert_eq!(p.total_score, 7);
}

#[test]
fn positions_share_places_on_equal_totals() {
    let mut a = player("a");
    a.total_score = -3;
    let mut b = player("b");
    b.total_score = -1;
    let mut c = player("c");
    c.total_score = -1;
    let mut d = player("d");
    d.total_score = 2;
    let rows = players_with_positions(vec![&a, &b, &c, &d]);
    let pos: Vec<usize> = rows.iter().map(|(p, _)| *p).collect();
    assert_eq!(pos, vec![1, 2, 2, 4]);
}

#[test]
fn sorting_is_stable() {
    let holes = vec![
        Hole { length: 1, par: 3, hole: 2 },
        Hole { length: 2, par: 3, hole: 1 },
        Hole { length: 3, par: 3, hole: 2 },
        Hole { length: 4, par: 3, hole: 1 },
    ];
    let sorted = stable_sort(holes);
    let lengths: Vec<u16> = sorted.iter().map(|h| h.length).collect();
    assert_eq!(lengths, vec![2, 4, 1, 3]);
}
