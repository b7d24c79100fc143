use flipup_vmix::division::Division;
use flipup_vmix::player::Player;
use flipup_vmix::queue::PlayerManager;

fn ids(v: &[&str]) -> Vec<String> {
    v.iter().map(|s| s.to_string()).collect()
}

fn queue_view(m: &PlayerManager) -> Vec<(String, bool, Option<usize>)> {
    m.queued_players()
        .into_iter()
        .map(|p| (p.player_id().to_string(), p.inside_card(), p.queue_position()))
        .collect()
}

#[test]
fn new_card_focuses_the_first_player_and_queues_nobody() {
    let m = PlayerManager::new(ids(&["a", "b", "c"]));
    assert_eq!(m.focused_player().player_id(), "a");
    assert_eq!(m.internal_card().len(), 3);
    assert!(m.queued_players().is_empty());
}

#[test]
fn queued_players_get_increasing_positions_and_keep_them() {
    let mut m = PlayerManager::new(ids(&["a", "b", "c"]));
    m.add_to_queue("c".to_string());
    m.add_to_queue("b".to_string());
    m.add_to_queue("c".to_string());
    let q = queue_view(&m);
    assert_eq!(q.len(), 2);
    assert_eq!(q[0], ("b".to_string(), true, Some(2)));
    assert_eq!(q[1], ("c".to_string(), true, Some(1)));
}

#[test]
fn queueing_an_unknown_player_adds_them_off_the_card() {
    let mut m = PlayerManager::new(ids(&["a"]));
    m.add_to_queue("z".to_string());
    let q = queue_view(&m);
    assert_eq!(q, vec![("z".to_string(), false, Some(1))]);
    assert_eq!(m.internal_card().len(), 1);
}

#[test]
fn next_queued_moves_the_focus_to_the_first_in_queue() {
    let mut m = PlayerManager::new(ids(&["a", "b", "c"]));
    m.add_to_queue("c".to_string());
    m.add_to_queue("b".to_string());
    m.next_queued();
    assert_eq!(m.focused_player().player_id(), "c");
    let q = queue_view(&m);
    assert_eq!(q, vec![("b".to_string(), true, Some(1))]);
    m.next_queued();
    assert_eq!(m.focused_player().player_id(), "b");
    assert!(m.queued_players().is_empty());
}

#[test]
fn focus_by_card_index_and_unknown_index() {
    let mut m = PlayerManager::new(ids(&["a", "b", "c"]));
    assert!(m.set_focused_by_card_index(2).is_ok());
    assert_eq!(m.focused_player().player_id(), "c");
    assert!(m.set_focused_by_card_index(7).is_err());
    assert_eq!(m.focused_player().player_id(), "c");
}

#[test]
fn replacing_the_card_keeps_queued_players_behind_it() {
    let mut m = PlayerManager::new(ids(&["a", "b"]));
    m.add_to_queue("b".to_string());
    m.replace(ids(&["x", "y"]));
    let card: Vec<String> = m.internal_card().into_iter().map(|p| p.player_id().to_string()).collect();
    assert_eq!(card, ids(&["x", "y"]));
    let q = queue_view(&m);
    assert_eq!(q, vec![("b".to_string(), false, Some(1))]);
}

#[test]
fn replacing_with_the_same_card_twice_changes_nothing_more() {
    let mut m = PlayerManager::new(ids(&["a", "b", "c"]));
    m.add_to_queue("c".to_string());
    m.add_to_queue("z".to_string());
    m.set_focused_by_card_index(2).unwrap();
    m.replace(ids(&["c", "d"]));
    let once: Vec<(String, bool, Option<usize>)> = m
        .internal_card()
        .into_iter()
        .map(|p| (p.player_id().to_string(), p.inside_card(), p.queue_position()))
        .collect();
    let once_queue = queue_view(&m);
    let once_focus = m.focused_player().player_id().to_string();
    m.replace(ids(&["c", "d"]));
    let twice: Vec<(String, bool, Option<usize>)> = m
        .internal_card()
        .into_iter()
        .map(|p| (p.player_id().to_string(), p.inside_card(), p.queue_position()))
        .collect();
    assert_eq!(once, twice);
    assert_eq!(once_queue, queue_view(&m));
    assert_eq!(once_focus, m.focused_player().player_id());
    assert_eq!(once, vec![("c".to_string(), true, Some(1)), ("d".to_string(), true, None)]);
    assert_eq!(once_queue, vec![("c".to_string(), true, Some(1)), ("z".to_string(), false, Some(2))]);
}

#[test]
fn queue_positions_stay_one_to_the_number_queued() {
    let mut m = PlayerManager::new(ids(&["a", "b", "c"]));
    for id in ["b", "z", "a", "b"] {
        m.add_to_queue(id.to_string());
    }
    let mut positions: Vec<usize> = queue_view(&m).into_iter().map(|(_, _, p)| p.unwrap()).collect();
    positions.sort();
    assert_eq!(positions, vec![1, 2, 3]);
    m.next_queued();
    assert_eq!(m.focused_player().player_id(), "b");
    let mut positions: Vec<usize> = queue_view(&m).into_iter().map(|(_, _, p)| p.unwrap()).collect();
    positions.sort();
    assert_eq!(positions, vec![1, 2]);
    m.next_queued();
    m.next_queued();
    assert!(m.queued_players().is_empty());
    m.next_queued();
    assert!(m.queued_players().is_empty());
}

#[test]
fn the_listing_carries_each_players_division_and_focus() {
    let mut m = PlayerManager::new(ids(&["a", "b"]));
    m.add_to_queue("b".to_string());
    let mut a = Player::null_player();
    a.player_id = "a".to_string();
    a.name = "Ann".to_string();
    a.division = Division { id: "d1".to_string(), name: "Open".to_string(), short_name: "MPO".to_string() };
    let mut b = Player::null_player();
    b.player_id = "b".to_string();
    b.name = "Bo".to_string();
    b.division = Division { id: "d2".to_string(), name: "Women".to_string(), short_name: "FPO".to_string() };
    let listing = m.dto_players(vec![&a, &b], false);
    assert_eq!(listing.len(), 2);
    assert_eq!(listing[0].division.short_name, "MPO");
    assert_eq!(listing[1].division.id, "d2");
    assert!(listing[0].focused && !listing[1].focused);
    assert_eq!(listing[1].queue, Some(1));
}
