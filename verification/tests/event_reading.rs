use flipup_vmix::channels::{DivisionUpdate, HoleUpdate, LeaderboardRoundUpdate, PlayerManagerUpdate};
use flipup_vmix::coordinator::FlipUpVMixCoordinator;
use flipup_vmix::hole::{HoleAverage, HoleDifficulty, ScoreSign};
use flipup_vmix::division::Division;
use flipup_vmix::dto;
use flipup_vmix::error::Error;
use flipup_vmix::event::{
    groups_of_round, Course, Dnf, Dns, Group, GroupPlayer, GroupPlayerConnection, GroupPlayerConnectionTypeCombined,
    GroupStatus, GroupUser, GroupsRound, Layout, LayoutVersion, Pool, QueryGroup,
};
use flipup_vmix::handler::{
    assign_group_indexes, from_query, order_divisions, reports_fit_check, round_is_ready, round_players, QueryPlayer,
    User, UserProfile,
};
use flipup_vmix::hole::{Hole, Holes};
use flipup_vmix::player::BroadcastType;
use flipup_vmix::results::{group_results, PlayerResults, RawResult};
use flipup_vmix::rust_handler::{events_are_ready, RoundData, RustHandler};
use flipup_vmix::tjing;

fn division(id: &str, name: &str) -> Division {
    Division { id: id.to_string(), name: name.to_string(), short_name: name.to_string() }
}

fn course() -> Holes {
    let mut holes = Vec::new();
    for h in 1..=18u8 {
        holes.push(Hole { length: 80 + h as u16, par: if h == 5 { 4 } else { 3 }, hole: h });
    }
    Holes::from_vec_hole(holes)
}

fn layout() -> Layout {
    Layout { name: "Main".to_string(), course: None }
}

fn listed(id: &str, name: &str, div: &Division) -> dto::Player {
    dto::Player::new(id.to_string(), name.to_string(), None, 0, 0, None, div.clone())
}

fn query_player(id: &str, first: &str, last: &str, div: &Division) -> QueryPlayer {
    QueryPlayer {
        user: User {
            first_name: Some(first.to_string()),
            last_name: Some(last.to_string()),
            profile: Some(UserProfile { profile_image_url: Some("img".to_string()), pdga_number: Some(1234) }),
        },
        dnf: Dnf { is_dnf: false },
        dns: Dns { is_dns: false },
        division: div.clone(),
        id: id.to_string(),
    }
}

fn report(hole: usize, score: usize, par: u8) -> tjing::HoleResult {
    tjing::HoleResult {
        score,
        hole_number: hole,
        par,
        is_circle_hit: false,
        is_inside_putt: false,
        is_out_of_bounds: false,
        is_outside_putt: false,
        is_verified: true,
    }
}

fn round_data(div: &Division) -> (RoundData, Group) {
    let group = Group::new(
        "g1".to_string(),
        vec![listed("p1", "Anna Berg", div), listed("p2", "Bo Ek", div)],
        1,
        1,
        Some(3600),
        layout(),
    );
    let players = vec![
        query_player("p1", "Anna", "Berg", div),
        query_player("p2", "Bo", "Ek", div),
        query_player("p3", "Cy", "Off", div),
    ];
    let results = PlayerResults {
        players: vec![
            ("p1".to_string(), vec![report(1, 2, 3), report(2, 3, 3)]),
            ("p2".to_string(), vec![report(1, 4, 3)]),
        ],
    };
    let holes = vec![("g1".to_string(), course())];
    (RoundData { players, results, holes }, group)
}

fn coordinator() -> FlipUpVMixCoordinator {
    let div = division("d1", "Mixed Pro Open");
    let (data, group) = round_data(&div);
    let groups = vec![vec![group]];
    let events = vec![vec![data]];
    assert!(events_are_ready(&events, &groups, vec![div.clone()]));
    let handler = RustHandler::new(
        events,
        vec![div],
        groups,
        vec![vec!["r1".to_string()]],
        0,
        BroadcastType::Live,
        false,
    );
    FlipUpVMixCoordinator::new(handler, "127.0.0.1".to_string(), 0, 0, 1, vec!["e1".to_string()])
}

#[test]
fn group_start_time_is_seconds_after_midnight() {
    let g = Group::new("g".to_string(), vec![], 3, 7, Some(2 * 86400 + 3 * 3600 + 25), layout());
    assert_eq!(g.start_time, Some(3 * 3600 + 25));
    assert_eq!(g.start_at_hole, 7);
    let before_epoch = Group::new("g".to_string(), vec![], 3, 7, Some(-1), layout());
    assert_eq!(before_epoch.start_time, Some(86399));
    let unknown = Group::new("g".to_string(), vec![], 3, 7, None, layout());
    assert_eq!(unknown.start_time, None);
}

#[test]
fn divisions_are_renamed_ordered_and_deduplicated() {
    let divs = vec![
        division("a", "Mixed Amateur 2"),
        division("b", "Mixed Pro Open"),
        division("c", "Women's Amateur 1"),
        division("d", "Mixed Amateur 2"),
    ];
    let out = order_divisions(divs);
    let names: Vec<String> = out.iter().map(|d| d.name.clone()).collect();
    assert_eq!(names, vec!["Mixed Pro Open", "FA1", "MA2"]);
}

#[test]
fn a_player_is_read_with_letters_only_and_sorted_results() {
    let div = division("d1", "Open");
    let q = query_player("p9", "Jo-Anne", "O'Neil 3", &div);
    let p = from_query(q, vec![report(2, 4, 3), report(1, 3, 3)], 0, course(), vec![div.clone()], 1, 0, BroadcastType::Live, false)
        .ok()
        .unwrap();
    assert_eq!(p.first_name, "JoAnne");
    assert_eq!(p.surname, "ONeil");
    assert_eq!(p.name, "JoAnne ONeil");
    assert_eq!(p.image_location, Some("images/p9.png".to_string()));
    assert_eq!(p.pdga_num, Some(1234));
    let holes: Vec<u8> = p.results.results.iter().map(|r| r.hole).collect();
    assert_eq!(holes, vec![1, 2]);
    assert_eq!(p.total_score, 0);
}

#[test]
fn a_player_of_an_unknown_division_is_refused() {
    let q = query_player("p9", "Jo", "Ek", &division("zz", "Open"));
    let r = from_query(q, vec![], 0, course(), vec![division("d1", "Open")], 1, 0, BroadcastType::Live, true);
    assert!(matches!(r, Err(Error::UnableToParse)));
}

#[test]
fn reports_must_be_on_the_layout() {
    assert!(reports_fit_check(&vec![report(1, 3, 3), report(18, 2, 3)], &course()));
    assert!(!reports_fit_check(&vec![report(19, 3, 3)], &course()));
}

#[test]
fn only_players_on_a_group_are_read() {
    let div = division("d1", "Open");
    let (data, group) = round_data(&div);
    let groups = vec![group];
    assert!(round_is_ready(&data.players, &groups, &data.results, &data.holes, &vec![div.clone()]));
    let players = round_players(data.players, &groups, &data.results, &data.holes, &vec![div], 2, 1, BroadcastType::Live, false);
    let ids: Vec<String> = players.iter().map(|p| p.player_id.clone()).collect();
    assert_eq!(ids, vec!["p1", "p2"]);
    assert!(players.iter().all(|p| p.round_ind == 2 && p.event_number == 1 && p.results.start_at_hole == 1));
}

#[test]
fn a_round_without_the_results_of_a_player_is_not_ready() {
    let div = division("d1", "Open");
    let (mut data, group) = round_data(&div);
    data.results.players.pop();
    assert!(!round_is_ready(&data.players, &vec![group], &data.results, &data.holes, &vec![div]));
}

#[test]
fn group_indexes_follow_the_named_players() {
    let div = division("d1", "Open");
    let (data, group) = round_data(&div);
    let groups = vec![group];
    let mut players = round_players(data.players, &groups, &data.results, &data.holes, &vec![div], 0, 0, BroadcastType::Live, false);
    assign_group_indexes(&mut players, &groups);
    let idx: Vec<usize> = players.iter().map(|p| p.group_index).collect();
    assert_eq!(idx, vec![0, 1]);
}

#[test]
fn raw_results_are_grouped_by_player_in_order() {
    let raw = |id: &str, hole: usize| RawResult {
        player_id: id.to_string(),
        score: 3,
        hole_number: hole,
        par: Some(3),
        is_circle_hit: false,
        is_inside_putt: false,
        is_out_of_bounds: false,
        is_outside_putt: false,
        is_verified: true,
    };
    let grouped = group_results(vec![raw("a", 1), raw("b", 1), raw("a", 2)]);
    let view: Vec<(String, Vec<usize>)> =
        grouped.players.iter().map(|(id, rs)| (id.clone(), rs.iter().map(|r| r.hole_number).collect())).collect();
    assert_eq!(view, vec![("a".to_string(), vec![1, 2]), ("b".to_string(), vec![1])]);
}

#[test]
fn the_handler_lists_round_players_and_divisions() {
    let div = division("d1", "Mixed Amateur 1");
    let (data, group) = round_data(&div);
    let handler = RustHandler::new(
        vec![vec![data]],
        vec![div],
        vec![vec![group]],
        vec![vec!["r1".to_string()]],
        0,
        BroadcastType::Live,
        false,
    );
    let names: Vec<String> = handler.get_divisions().iter().map(|d| d.name.clone()).collect();
    assert_eq!(names, vec!["MA1"]);
    assert_eq!(handler.amount_of_rounds(), 1);
    let ids: Vec<String> = handler.get_players().iter().map(|p| p.player_id.clone()).collect();
    assert_eq!(ids, vec!["p1", "p2"]);
    assert_eq!(handler.round_ids(), vec!["r1".to_string()]);
}

#[test]
fn a_new_coordinator_focuses_the_first_player_of_the_first_group() {
    let c = coordinator();
    assert_eq!(c.focused_player().player_id, "p1");
    assert_eq!(c.get_focused_player_name(), "Anna Berg");
    assert_eq!(c.get_player_ids(), vec!["p1".to_string(), "p2".to_string()]);
    assert!(c.vmix_queue.iter().any(|cmd| cmd.contains("Value=Anna")));
    assert!(c.vmix_queue.iter().any(|cmd| cmd.contains("Value=Berg")));
}

#[test]
fn throws_are_counted_and_scored() {
    let mut c = coordinator();
    c.increase_throw();
    c.increase_throw();
    c.decrease_throw();
    assert_eq!(c.focused_player().throws, 1);
    c.vmix_queue.clear();
    assert!(c.increase_score().is_ok());
    assert_eq!(c.focused_player().hole_shown_up_until, 1);
    assert_eq!(c.focused_player().round_score, -1);
    assert!(!c.vmix_queue.is_empty());
    c.revert_score();
    assert_eq!(c.focused_player().hole_shown_up_until, 0);
    assert_eq!(c.focused_player().round_score, 0);
}

#[test]
fn focusing_another_player_of_the_card() {
    let mut c = coordinator();
    let stats = vec![(0, 0), (0, 0)];
    assert!(c.set_focused_player(1, &stats).is_ok());
    assert_eq!(c.focused_player().player_id, "p2");
    assert!(c.set_focused_player(5, &stats).is_err());
}

#[test]
fn divisions_are_found_by_id_and_name() {
    let c = coordinator();
    assert_eq!(c.find_division("d1").map(|d| d.name), Some("Mixed Pro Open".to_string()));
    assert!(c.find_division("nope").is_none());
    assert_eq!(c.find_division_by_name("Mixed Pro Open").map(|d| d.id), Some("d1".to_string()));
    assert_eq!(c.get_div_names(), vec!["Mixed Pro Open".to_string()]);
}

#[test]
fn the_interface_is_told_about_players_divisions_rounds_and_the_hole() {
    let c = coordinator();
    let players = PlayerManagerUpdate::from(&c);
    let ids: Vec<(String, bool)> = players.players.iter().map(|p| (p.id.clone(), p.focused)).collect();
    assert_eq!(ids, vec![("p1".to_string(), true), ("p2".to_string(), false)]);
    let divisions = DivisionUpdate::from(&c);
    let listing: Vec<(String, bool)> = divisions.divisions.iter().map(|d| (d.name.clone(), d.focused)).collect();
    assert_eq!(listing, vec![("Mixed Pro Open".to_string(), true)]);
    assert_eq!(HoleUpdate::from(&c).hole, 1);
    assert!(!c.rounds_in_threes());
    let _ = LeaderboardRoundUpdate::from;
}

#[test]
fn holes_are_ranked_by_their_averages() {
    let avg = |hole_number: u8, score: isize| HoleAverage { hole_number, score, sign: ScoreSign::Greater, has_results: true };
    let d = HoleDifficulty::new(vec![avg(3, 0), avg(1, 5), avg(2, -3)]);
    assert_eq!(d.hole_difficulty_text(0), Some("EASIEST".to_string()));
    assert_eq!(d.hole_difficulty_text(1), Some("3rd easiest".to_string()));
    assert_eq!(d.hole_difficulty_text(2), Some("2nd easiest".to_string()));
    assert_eq!(d.hole_difficulty_text(3), None);
}

fn query_group(id: &str, position: usize, players: &[(&str, &str, &str)], start_hole: Option<u8>) -> QueryGroup {
    let mut links = vec![GroupPlayerConnectionTypeCombined::Unknown];
    for (pid, first, last) in players {
        links.push(GroupPlayerConnectionTypeCombined::GroupPlayerConnection(GroupPlayerConnection {
            group_id: id.to_string(),
            player: GroupPlayer {
                id: pid.to_string(),
                user: GroupUser { first_name: Some(first.to_string()), last_name: Some(last.to_string()) },
            },
        }));
    }
    QueryGroup {
        id: id.to_string(),
        status: GroupStatus::Open,
        position,
        player_connections_v2: links,
        start_hole,
        starts_at: Some(86400 + 600),
    }
}

#[test]
fn the_groups_of_a_round_are_sorted_by_id_each_once_with_their_pools_layout() {
    let pool_a = Pool {
        groups: vec![query_group("g2", 1, &[("p3", "Cy", "Dahl")], Some(4)), query_group("g1", 0, &[("p1", "Anna", "Berg"), ("p2", "Bo", "Ek")], None)],
        layout_version: Some(LayoutVersion {
            layout: Layout { name: "Long".to_string(), course: Some(Course { name: "Park".to_string() }) },
        }),
    };
    let pool_b = Pool { groups: vec![query_group("g1", 5, &[("p9", "Ida", "Ny")], Some(9))], layout_version: None };
    let groups = groups_of_round(GroupsRound { pools: vec![pool_a, pool_b] });
    let ids: Vec<String> = groups.iter().map(|g| g.id.clone()).collect();
    assert_eq!(ids, vec!["g1", "g2"]);
    let first = &groups[0];
    let players: Vec<(String, String)> = first.players.iter().map(|p| (p.id.clone(), p.name.clone())).collect();
    assert_eq!(players, vec![("p1".to_string(), "Anna Berg".to_string()), ("p2".to_string(), "Bo Ek".to_string())]);
    assert_eq!(first.group_number, 1);
    assert_eq!(first.start_at_hole, 0);
    assert_eq!(first.start_time, Some(600));
    assert_eq!(first.layout.name, "Long");
    assert_eq!(first.layout.course.as_ref().map(|c| c.name.clone()), Some("Park".to_string()));
    assert!(first.players.iter().all(|p| p.index == 100 && p.division.short_name == "MPO" && p.queue.is_none()));
    let second = &groups[1];
    assert_eq!(second.group_number, 2);
    assert_eq!(second.start_at_hole, 4);
    assert_eq!(second.players.len(), 1);
}

#[test]
fn a_pool_without_a_layout_gives_an_empty_one() {
    let pool = Pool { groups: vec![query_group("g7", 2, &[], Some(1))], layout_version: None };
    let groups = groups_of_round(GroupsRound { pools: vec![pool] });
    assert_eq!(groups.len(), 1);
    assert_eq!(groups[0].layout.name, "");
    assert!(groups[0].layout.course.is_none());
    assert!(groups[0].players.is_empty());
}

#[test]
fn round_players_carry_names_division_and_reported_results() {
    let div = division("d1", "Open");
    let (data, group) = round_data(&div);
    let groups = vec![group];
    let players = round_players(data.players, &groups, &data.results, &data.holes, &vec![div], 0, 0, BroadcastType::Live, true);
    let p1 = &players[0];
    assert_eq!(p1.first_name, "Anna");
    assert_eq!(p1.surname, "Berg");
    assert_eq!(p1.name, "Anna Berg");
    assert_eq!(p1.division.id, "d1");
    assert_eq!(p1.pdga_num, Some(1234));
    let holes: Vec<u8> = p1.results.results.iter().map(|r| r.hole).collect();
    assert_eq!(holes, vec![1, 2]);
    assert_eq!(players[1].results.results.len(), 1);
    assert_eq!(p1.holes.holes.len(), 18);
}

#[test]
fn a_player_whose_division_is_unknown_is_refused_whatever_their_results() {
    let q = query_player("p1", "Anna", "Berg", &division("zz", "Gone"));
    let r = from_query(q, vec![report(30, 2, 3)], 0, course(), vec![division("d1", "Open")], 1, 0, BroadcastType::Live, false);
    assert!(matches!(r, Err(Error::UnableToParse)));
}
