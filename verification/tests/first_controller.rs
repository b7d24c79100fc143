use flipup_vmix::scorecard::{
    Division, Event, Hole, MyApp, NewPlayer, PlayerRound, Pool, PoolLeaderboardDivision, PoolLeaderboardDivisionCombined,
    PoolLeaderboardPlayer, PoolStatus, RankUpDown, Round, RustHandler, ScoreCard, SimpleResult,
};

fn result(number: u8, par: u8, score: u8) -> SimpleResult {
    SimpleResult {
        hole: Hole { par: Some(par), number },
        score,
        is_circle_hit: false,
        is_inside_putt: false,
        is_out_of_bounds: false,
        is_outside_putt: false,
    }
}

/// A round of 18 holes, all par 3, played in the given throws.
fn round_of(throws: &[u8]) -> Vec<SimpleResult> {
    throws.iter().enumerate().map(|(i, t)| result(i as u8 + 1, 3, *t)).collect()
}

fn lb_player(id: &str, first: &str, last: &str, throws: &[u8]) -> PoolLeaderboardPlayer {
    PoolLeaderboardPlayer {
        first_name: first.to_string(),
        is_dnf: false,
        is_dns: false,
        last_name: last.to_string(),
        player_id: id.to_string(),
        results: round_of(throws),
    }
}

fn event() -> Event {
    let division = |players| {
        Some(PoolLeaderboardDivisionCombined::Pld(PoolLeaderboardDivision {
            id: "open".to_string(),
            name: "Open".to_string(),
            players,
            type_: "MPO".to_string(),
        }))
    };
    let round = |players| Round {
        pools: vec![Pool { status: PoolStatus::Completed, leaderboard: Some(vec![division(players), None]) }],
        id: "r".to_string(),
    };
    Event {
        rounds: vec![
            Some(round(vec![lb_player("a", "Ann", "Ek", &[3; 18]), lb_player("b", "Bo", "Lind", &[2; 18])])),
            Some(round(vec![lb_player("a", "Ann", "Ek", &[2; 18]), lb_player("b", "Bo", "Lind", &[4; 18])])),
        ],
        divisions: vec![None, Some(Division { id: "open".to_string(), name: "Open".to_string() })],
    }
}

#[test]
fn scores_get_their_colour_and_clip() {
    let birdie = result(1, 3, 2);
    assert_eq!(birdie.actual_score(), -1);
    assert_eq!(birdie.get_score_colour(), "A6F8BBFF");
    assert_eq!(birdie.get_mov(), "03 birdie.mov");
    assert_eq!(result(1, 4, 1).get_mov(), "00 ace.mov");
    assert_eq!(result(1, 5, 2).get_mov(), "01 albatross.mov");
    assert_eq!(result(1, 3, 9).get_mov(), "");
    assert_eq!(result(1, 3, 9).get_score_colour(), "AB8E77FF");
    let no_par = SimpleResult { hole: Hole { par: None, number: 1 }, ..result(1, 3, 4) };
    assert_eq!(no_par.actual_score(), 4);
}

#[test]
fn a_round_sums_its_holes() {
    let round = PlayerRound::new(vec![result(1, 3, 2), result(2, 3, 5), result(3, 4, 4)]);
    assert_eq!(round.hole_score(1), 2);
    assert_eq!(round.hole_score(7), i16::MAX);
    assert_eq!(round.score_to_hole(0), -1);
    assert_eq!(round.score_to_hole(2), 1);
    let info = round.get_hole_info(2, 120, 393);
    assert_eq!(info.len(), 4);
    assert!(info[1].ends_with("SelectedName=parnr.Text&Value=Value=4"));
    assert!(info[2].ends_with("Value=120M"));
    assert!(info[3].ends_with("Value=393FT"));
}

#[test]
fn a_move_shows_its_size_and_arrow() {
    let calls = RankUpDown::Up(3).get_tcps(2);
    assert_eq!(calls[0], "FUNCTION SetText Input=SelectedName=move2.Text&Value=Value=3");
    assert!(calls[1].contains("greentri.png"));
    assert!(RankUpDown::Same.get_tcps(1)[1].contains("alpha.png"));
}

#[test]
fn a_player_collects_their_rounds_of_the_division() {
    let ev = event();
    let p = NewPlayer::new("b".to_string(), "Bo".to_string(), "Lind".to_string(), &ev, "open", "v".to_string(), "l".to_string());
    assert_eq!(p.name, "Bo Lind");
    assert_eq!(p.rounds.len(), 2);
    assert_eq!(p.rounds[0].score_to_hole(17), -18);
    assert_eq!(p.rounds[1].score_to_hole(17), 18);
    let other = NewPlayer::new("b".to_string(), "Bo".to_string(), "Lind".to_string(), &ev, "women", "v".to_string(), "l".to_string());
    assert!(other.rounds.is_empty());
}

#[test]
fn scoring_holes_counts_the_round_and_the_rounds_before() {
    let ev = event();
    let mut p = NewPlayer::new("b".to_string(), "Bo".to_string(), "Lind".to_string(), &ev, "open", "v".to_string(), "l".to_string());
    p.set_round(1);
    let calls = p.set_hole_score();
    assert_eq!(p.hole, 1);
    assert_eq!(p.round_score, 1);
    assert_eq!(p.total_score, -17);
    assert!(p.first_scored);
    assert_eq!(calls[0], "FUNCTION SetText Input=SelectedName=s1p1.Text&Value=Value=1");
    assert!(calls.iter().any(|c| c.contains("scoretotp1.Text&Value=Value=-17")));
    assert!(calls.iter().any(|c| c.contains("scorerndp1.Text&Value=Value=(%2B1)")));
    let back = p.revert_hole_score();
    assert_eq!(p.hole, 0);
    assert_eq!(p.round_score, 0);
    assert_eq!(p.total_score, -18);
    assert!(!back.is_empty());
}

#[test]
fn a_hidden_player_sends_nothing() {
    let ev = event();
    let mut p = NewPlayer::new("a".to_string(), "Ann".to_string(), "Ek".to_string(), &ev, "open", "v".to_string(), "l".to_string());
    p.visible_player = false;
    assert!(p.set_hole_score().is_empty());
    assert_eq!(p.hole, 1);
    assert_eq!(p.set_pos(), "");
}

#[test]
fn shifting_scores_keeps_the_last_nine_holes_in_view() {
    let ev = event();
    let mut p = NewPlayer::new("a".to_string(), "Ann".to_string(), "Ek".to_string(), &ev, "open", "v".to_string(), "l".to_string());
    p.hole = 10;
    let calls = p.shift_scores(true);
    assert_eq!(p.shift, 3);
    assert_eq!(p.hole, 11);
    assert!(calls.iter().any(|c| c.contains("HN9p1.Text&Value=Value=12")));
    assert!(calls.iter().any(|c| c.contains("SetTextVisibleOff Input=SelectedName=s9p1.Text")));
}

#[test]
fn resetting_a_player_empties_nine_fields() {
    let ev = event();
    let mut p = NewPlayer::new("a".to_string(), "Ann".to_string(), "Ek".to_string(), &ev, "open", "v".to_string(), "l".to_string());
    p.hole = 5;
    let calls = p.reset_scores();
    assert_eq!(p.hole, 0);
    assert_eq!(p.total_score, 0);
    assert!(!p.pos_visible);
    assert_eq!(calls.len(), 9 * 4 + 1 + 3 + 1);
    p.round_ind = 1;
    let calls = p.reset_scores();
    assert_eq!(p.total_score, 0);
    assert!(calls.iter().any(|c| c.contains("scorerndp1.Text&Value=Value=(E)")));
}

#[test]
fn moves_follow_the_change_of_place() {
    let mut p = NewPlayer::default();
    p.round_ind = 1;
    p.old_pos = 5;
    p.lb_pos = 2;
    p.check_pos();
    assert_eq!(p.rank, RankUpDown::Up(3));
    p.old_pos = 1;
    p.check_pos();
    assert_eq!(p.rank, RankUpDown::Down(1));
    p.round_ind = 0;
    p.check_pos();
    assert_eq!(p.rank, RankUpDown::Same);
}

#[test]
fn the_leaderboard_row_of_a_player() {
    let mut p = NewPlayer::default();
    p.position = 3;
    p.lb_pos = 2;
    p.lb_even = true;
    p.name = "Ann Ek".to_string();
    p.total_score = -4;
    p.round_score = -1;
    p.thru = 7;
    let calls = p.set_lb();
    assert_eq!(calls.len(), 10);
    assert_eq!(calls[0], "FUNCTION SetText Input=SelectedName=pos#3.Text&Value=T2&Value=Value=3");
    assert!(calls[6].ends_with("ts#3.Text&Value=Value=-4"));
    assert!(calls[9].ends_with("thru#3.Text&Value=Value=7"));
    assert_eq!(MyApp::clear_lb(10).len(), 11 * 10);
}

#[test]
fn places_are_shared_by_equal_totals() {
    let mut app = MyApp::new();
    for (id, total) in [("a", 3), ("b", -2), ("c", 0), ("d", 0)] {
        let mut p = NewPlayer::default();
        p.player_id = id.to_string();
        p.total_score = total;
        app.score_card.all_play_players.push(p);
    }
    app.assign_position();
    let rows: Vec<(String, u16, u16, bool)> = app
        .score_card
        .all_play_players
        .iter()
        .map(|p| (p.player_id.clone(), p.position, p.lb_pos, p.lb_even))
        .collect();
    assert_eq!(
        rows,
        vec![
            ("b".to_string(), 1, 1, false),
            ("c".to_string(), 2, 2, true),
            ("d".to_string(), 3, 2, true),
            ("a".to_string(), 4, 4, false),
        ]
    );
}

#[test]
fn the_handler_lists_divisions_and_players() {
    let mut handler = RustHandler::new(event(), "v".to_string(), "l".to_string());
    assert_eq!(handler.chosen_division, "open");
    assert_eq!(handler.get_divisions().len(), 1);
    let players = handler.get_players();
    let ids: Vec<String> = players.iter().map(|p| p.player_id.clone()).collect();
    assert_eq!(ids, vec!["a", "b"]);
    handler.set_chosen_by_ind(0);
    assert_eq!(handler.chosen_division, "open");
}

#[test]
fn a_scorecard_slot_takes_a_player() {
    let ev = event();
    let mut card = ScoreCard::new();
    card.all_play_players.push(NewPlayer::new("a".to_string(), "Ann".to_string(), "Ek".to_string(), &ev, "open", "v".to_string(), "l".to_string()));
    let calls = card.set_player(2, "a", 0);
    assert_eq!(card.p2.player_id, "a");
    assert_eq!(card.p2.ind, 1);
    assert_eq!(calls[0], "FUNCTION SetText Input=SelectedName=namep2.Text&Value=Value=Ann");
    assert!(card.set_player(3, "zz", 0).is_empty());
    card.set_total_score(2, 7);
    assert_eq!(card.p2.total_score, 7);
}

#[test]
fn the_leaderboard_of_the_second_round() {
    let mut app = MyApp::new();
    app.handler = Some(RustHandler::new(event(), "v".to_string(), "l".to_string()));
    app.set_div(0);
    assert_eq!(app.get_player_names(), vec!["Ann Ek".to_string(), "Bo Lind".to_string()]);
    app.set_player(1, "a");
    app.set_player(2, "b");
    app.round_ind = 1;
    app.set_all_to_hole(18);
    let calls = app.set_leaderboard(true, None);
    let rows: Vec<(String, i16, u16)> =
        app.score_card.all_play_players.iter().map(|p| (p.player_id.clone(), p.total_score, p.lb_pos)).collect();
    assert_eq!(rows[0].0, "a");
    assert!(calls.iter().any(|c| c.contains("checkintext.Text&Value=Value=OPEN LEADERBOARD CHECK-IN")));
}
