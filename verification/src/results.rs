//! The results of a round as the scoring service reports them, by player, and
//! the record of what the controller has taken in so far.
use vstd::prelude::*;

use crate::hole::Hole;
use crate::player::Player;
use crate::round::{tjing_fold, tjing_fold_ok};
use crate::text::str_eq;
use crate::tjing::HoleResult;

verus! {

/// One result as the service reports it, with the player it belongs to; the
/// par is missing where the service does not know it.
#[derive(Clone, Debug)]
pub struct RawResult {
    pub player_id: String,
    pub score: usize,
    pub hole_number: usize,
    pub par: Option<u8>,
    pub is_circle_hit: bool,
    pub is_inside_putt: bool,
    pub is_out_of_bounds: bool,
    pub is_outside_putt: bool,
    pub is_verified: bool,
}

/// The result of a raw result, once its par is known.
pub open spec fn result_of(r: RawResult, par: u8) -> HoleResult {
    HoleResult {
        score: r.score,
        hole_number: r.hole_number,
        par,
        is_circle_hit: r.is_circle_hit,
        is_inside_putt: r.is_inside_putt,
        is_out_of_bounds: r.is_out_of_bounds,
        is_outside_putt: r.is_outside_putt,
        is_verified: r.is_verified,
    }
}

/// The index of the entry of the player with the given id.
pub open spec fn entry_index<T>(s: Seq<(Seq<char>, T)>, id: Seq<char>, from: int) -> Option<int>
    decreases s.len() - from,
{
    if from < 0 || from >= s.len() {
        None
    } else if s[from].0 == id {
        Some(from)
    } else {
        entry_index(s, id, from + 1)
    }
}

pub proof fn lemma_entry_index<T>(s: Seq<(Seq<char>, T)>, id: Seq<char>, from: int)
    requires
        0 <= from,
    ensures
        match entry_index(s, id, from) {
            Some(k) => from <= k < s.len() && s[k].0 == id,
            None => forall|j: int| from <= j < s.len() ==> s[j].0 != id,
        },
    decreases s.len() - from,
{
    if from < s.len() && s[from].0 != id {
        lemma_entry_index(s, id, from + 1);
    }
}

/// Whether no id occurs twice among the entries.
pub open spec fn ids_distinct<T>(s: Seq<(Seq<char>, T)>) -> bool {
    forall|i: int, j: int| 0 <= i < j < s.len() ==> (#[trigger] s[i]).0 != (#[trigger] s[j]).0
}

proof fn lemma_distinct_update<T>(s: Seq<(Seq<char>, T)>, k: int, x: (Seq<char>, T))
    requires
        ids_distinct(s),
        0 <= k < s.len(),
        x.0 == s[k].0,
    ensures
        ids_distinct(s.update(k, x)),
{
    let t = s.update(k, x);
    assert forall|i: int, j: int| 0 <= i < j < t.len() implies (#[trigger] t[i]).0 != (#[trigger] t[j]).0 by {
        assert(s[i].0 != s[j].0);
    }
}

proof fn lemma_distinct_push<T>(s: Seq<(Seq<char>, T)>, x: (Seq<char>, T))
    requires
        ids_distinct(s),
        entry_index(s, x.0, 0) is None,
    ensures
        ids_distinct(s.push(x)),
{
    lemma_entry_index(s, x.0, 0);
    let t = s.push(x);
    assert forall|i: int, j: int| 0 <= i < j < t.len() implies (#[trigger] t[i]).0 != (#[trigger] t[j]).0 by {
        if j < s.len() {
            assert(s[i].0 != s[j].0);
        } else {
            assert(s[i].0 != x.0);
        }
    }
}

/// The results of each player, in the order the players first appear; results
/// without a par are left out.
pub open spec fn grouped(raws: Seq<RawResult>) -> Seq<(Seq<char>, Seq<HoleResult>)>
    decreases raws.len(),
{
    if raws.len() == 0 {
        seq![]
    } else {
        let g = grouped(raws.drop_last());
        let r = raws.last();
        match r.par {
            None => g,
            Some(par) => match entry_index(g, r.player_id@, 0) {
                Some(k) => g.update(k, (g[k].0, g[k].1.push(result_of(r, par)))),
                None => g.push((r.player_id@, seq![result_of(r, par)])),
            },
        }
    }
}

/// Each player has one entry in the grouped results.
pub proof fn lemma_grouped_distinct(raws: Seq<RawResult>)
    ensures
        ids_distinct(grouped(raws)),
    decreases raws.len(),
{
    if raws.len() > 0 {
        let g = grouped(raws.drop_last());
        let r = raws.last();
        lemma_grouped_distinct(raws.drop_last());
        lemma_entry_index(g, r.player_id@, 0);
        match r.par {
            None => {},
            Some(par) => match entry_index(g, r.player_id@, 0) {
                Some(k) => lemma_distinct_update(g, k, (g[k].0, g[k].1.push(result_of(r, par)))),
                None => lemma_distinct_push(g, (r.player_id@, seq![result_of(r, par)])),
            },
        }
    }
}

/// The results of a round, by player.
pub struct PlayerResults {
    pub players: Vec<(String, Vec<HoleResult>)>,
}

impl PlayerResults {
    /// The results by player, as text and values.
    pub open spec fn view_entries(&self) -> Seq<(Seq<char>, Seq<HoleResult>)> {
        self.players@.map_values(|e: (String, Vec<HoleResult>)| (e.0@, e.1@))
    }
}

/// The index of the results of the player with the given id.
pub fn find_results(players: &Vec<(String, Vec<HoleResult>)>, id: &str) -> (r: Option<usize>)
    ensures
        match entry_index(players@.map_values(|e: (String, Vec<HoleResult>)| (e.0@, e.1@)), id@, 0) {
            Some(k) => r matches Some(i) && i as int == k && i < players@.len(),
            None => r is None,
        },
{
    find_entry(players, id)
}

fn find_entry(players: &Vec<(String, Vec<HoleResult>)>, id: &str) -> (r: Option<usize>)
    ensures
        match entry_index(players@.map_values(|e: (String, Vec<HoleResult>)| (e.0@, e.1@)), id@, 0) {
            Some(k) => r matches Some(i) && i as int == k && i < players@.len(),
            None => r is None,
        },
{
    let ghost v = players@.map_values(|e: (String, Vec<HoleResult>)| (e.0@, e.1@));
    proof {
        lemma_entry_index(v, id@, 0);
    }
    let mut i: usize = 0;
    while i < players.len()
        invariant
            i <= players@.len(),
            v == players@.map_values(|e: (String, Vec<HoleResult>)| (e.0@, e.1@)),
            entry_index(v, id@, 0) == entry_index(v, id@, i as int),
        decreases players@.len() - i,
    {
        if str_eq(players[i].0.as_str(), id) {
            return Some(i);
        }
        i = i + 1;
    }
    None
}

/// Groups the results of a round by player (see `grouped`).
pub fn group_results(results: Vec<RawResult>) -> (r: PlayerResults)
    ensures
        r.view_entries() == grouped(results@),
        ids_distinct(r.view_entries()),
{
    proof {
        lemma_grouped_distinct(results@);
    }
    let mut players: Vec<(String, Vec<HoleResult>)> = Vec::new();
    let mut i: usize = 0;
    while i < results.len()
        invariant
            i <= results@.len(),
            players@.map_values(|e: (String, Vec<HoleResult>)| (e.0@, e.1@)) =~= grouped(results@.take(i as int)),
        decreases results@.len() - i,
    {
        proof {
            assert(results@.take(i + 1).drop_last() =~= results@.take(i as int));
            assert(results@.take(i + 1).last() == results@[i as int]);
        }
        let raw = &results[i];
        match raw.par {
            None => {},
            Some(par) => {
                let result = HoleResult {
                    score: raw.score,
                    hole_number: raw.hole_number,
                    par,
                    is_circle_hit: raw.is_circle_hit,
                    is_inside_putt: raw.is_inside_putt,
                    is_out_of_bounds: raw.is_out_of_bounds,
                    is_outside_putt: raw.is_outside_putt,
                    is_verified: raw.is_verified,
                };
                let ghost before = players@.map_values(|e: (String, Vec<HoleResult>)| (e.0@, e.1@));
                match find_entry(&players, raw.player_id.as_str()) {
                    Some(k) => {
                        let mut entry = players.remove(k);
                        entry.1.push(result);
                        players.insert(k, entry);
                        proof {
                            assert(players@.map_values(|e: (String, Vec<HoleResult>)| (e.0@, e.1@)) =~= before.update(
                                k as int,
                                (before[k as int].0, before[k as int].1.push(result)),
                            ));
                        }
                    },
                    None => {
                        let mut list = Vec::new();
                        list.push(result);
                        players.push((raw.player_id.clone(), list));
                        proof {
                            assert(list@ =~= seq![result]);
                            assert(players@.map_values(|e: (String, Vec<HoleResult>)| (e.0@, e.1@)) =~= before.push(
                                (raw.player_id@, seq![result]),
                            ));
                        }
                    },
                }
            },
        }
        i = i + 1;
    }
    proof {
        assert(results@.take(results@.len() as int) =~= results@);
    }
    PlayerResults { players }
}

/// The index of the first reported result on hole `hole` (compared as bytes).
pub open spec fn first_on_number(list: Seq<Option<HoleResult>>, hole: u8, from: int) -> Option<int>
    decreases list.len() - from,
{
    if from < 0 || from >= list.len() {
        None
    } else if list[from] matches Some(h) && (h.hole_number as u8) == hole {
        Some(from)
    } else {
        first_on_number(list, hole, from + 1)
    }
}

proof fn lemma_first_on_number(list: Seq<Option<HoleResult>>, hole: u8, from: int)
    requires
        0 <= from,
    ensures
        first_on_number(list, hole, from) matches Some(k) ==> from <= k < list.len() && list[k] is Some,
    decreases list.len() - from,
{
    if from < list.len() && !(list[from] matches Some(h) && (h.hole_number as u8) == hole) {
        lemma_first_on_number(list, hole, from + 1);
    }
}

/// A player's list after a report is taken in: a result on the same hole takes
/// the new score, else the report is added; and whether anything changed.
pub open spec fn list_update(list: Seq<Option<HoleResult>>, r: HoleResult) -> (Seq<Option<HoleResult>>, bool) {
    match first_on_number(list, r.hole_number as u8, 0) {
        Some(j) => {
            let old_result = list[j]->0;
            if old_result.score != r.score {
                (list.update(j, Some(HoleResult { score: r.score, ..old_result })), true)
            } else {
                (list, false)
            }
        },
        None => (list.push(Some(r)), true),
    }
}

/// The record after a report of a player is taken in, and whether anything
/// changed.
pub open spec fn record_update(entries: Seq<(Seq<char>, Seq<Option<HoleResult>>)>, id: Seq<char>, r: HoleResult) -> (Seq<(Seq<char>, Seq<Option<HoleResult>>)>, bool) {
    match entry_index(entries, id, 0) {
        Some(k) => {
            let (list, changed) = list_update(entries[k].1, r);
            (entries.update(k, (id, list)), changed)
        },
        None => {
            let (list, changed) = list_update(seq![], r);
            (entries.push((id, list)), changed)
        },
    }
}

/// The record after the reports of a player are taken in, in order, and
/// whether anything changed.
pub open spec fn record_update_many(entries: Seq<(Seq<char>, Seq<Option<HoleResult>>)>, id: Seq<char>, rs: Seq<HoleResult>) -> (Seq<(Seq<char>, Seq<Option<HoleResult>>)>, bool)
    decreases rs.len(),
{
    if rs.len() == 0 {
        (entries, false)
    } else {
        let (e, changed) = record_update_many(entries, id, rs.drop_last());
        let (e2, changed2) = record_update(e, id, rs.last());
        (e2, changed || changed2)
    }
}

/// The record after the reports of all players are taken in, and whether
/// anything changed.
pub open spec fn record_update_all(entries: Seq<(Seq<char>, Seq<Option<HoleResult>>)>, players: Seq<(Seq<char>, Seq<HoleResult>)>) -> (Seq<(Seq<char>, Seq<Option<HoleResult>>)>, bool)
    decreases players.len(),
{
    if players.len() == 0 {
        (entries, false)
    } else {
        let (e, changed) = record_update_all(entries, players.drop_last());
        let (e2, changed2) = record_update_many(e, players.last().0, players.last().1);
        (e2, changed || changed2)
    }
}

/// The record of a set of players: for each id, the reports of the last
/// player with it.
pub open spec fn initial_record(players: Seq<(Seq<char>, Seq<Option<HoleResult>>)>) -> Seq<(Seq<char>, Seq<Option<HoleResult>>)>
    decreases players.len(),
{
    if players.len() == 0 {
        seq![]
    } else {
        let e = initial_record(players.drop_last());
        let (id, list) = players.last();
        match entry_index(e, id, 0) {
            Some(k) => e.update(k, (id, list)),
            None => e.push((id, list)),
        }
    }
}

/// Each player has one entry in an initial record.
pub proof fn lemma_initial_distinct(players: Seq<(Seq<char>, Seq<Option<HoleResult>>)>)
    ensures
        ids_distinct(initial_record(players)),
    decreases players.len(),
{
    if players.len() > 0 {
        let e = initial_record(players.drop_last());
        let (id, list) = players.last();
        lemma_initial_distinct(players.drop_last());
        lemma_entry_index(e, id, 0);
        match entry_index(e, id, 0) {
            Some(k) => lemma_distinct_update(e, k, (id, list)),
            None => lemma_distinct_push(e, (id, list)),
        }
    }
}

/// Taking in a report keeps each player to one entry.
pub proof fn lemma_record_update_distinct(entries: Seq<(Seq<char>, Seq<Option<HoleResult>>)>, id: Seq<char>, r: HoleResult)
    requires
        ids_distinct(entries),
    ensures
        ids_distinct(record_update(entries, id, r).0),
{
    lemma_entry_index(entries, id, 0);
    match entry_index(entries, id, 0) {
        Some(k) => lemma_distinct_update(entries, k, (id, list_update(entries[k].1, r).0)),
        None => lemma_distinct_push(entries, (id, list_update(seq![], r).0)),
    }
}

/// Taking in the reports of a player keeps each player to one entry.
pub proof fn lemma_record_update_many_distinct(entries: Seq<(Seq<char>, Seq<Option<HoleResult>>)>, id: Seq<char>, rs: Seq<HoleResult>)
    requires
        ids_distinct(entries),
    ensures
        ids_distinct(record_update_many(entries, id, rs).0),
    decreases rs.len(),
{
    if rs.len() > 0 {
        lemma_record_update_many_distinct(entries, id, rs.drop_last());
        lemma_record_update_distinct(record_update_many(entries, id, rs.drop_last()).0, id, rs.last());
    }
}

/// Taking in the reports of all players keeps each player to one entry.
pub proof fn lemma_record_update_all_distinct(entries: Seq<(Seq<char>, Seq<Option<HoleResult>>)>, players: Seq<(Seq<char>, Seq<HoleResult>)>)
    requires
        ids_distinct(entries),
    ensures
        ids_distinct(record_update_all(entries, players).0),
    decreases players.len(),
{
    if players.len() > 0 {
        lemma_record_update_all_distinct(entries, players.drop_last());
        lemma_record_update_many_distinct(record_update_all(entries, players.drop_last()).0, players.last().0, players.last().1);
    }
}

/// The reports in a list, in order.
pub open spec fn reports(list: Seq<Option<HoleResult>>) -> Seq<HoleResult>
    decreases list.len(),
{
    if list.len() == 0 {
        seq![]
    } else {
        reports(list.drop_last()) + match list.last() {
            Some(r) => seq![r],
            None => seq![],
        }
    }
}

/// What the controller has taken in of the reports of the scoring service,
/// by player.
pub struct TjingResultMap {
    pub results: Vec<(String, Vec<Option<HoleResult>>)>,
}

impl TjingResultMap {
    /// The record by player, as text and values.
    pub open spec fn entries(&self) -> Seq<(Seq<char>, Seq<Option<HoleResult>>)> {
        self.results@.map_values(|e: (String, Vec<Option<HoleResult>>)| (e.0@, e.1@))
    }

    fn find(&self, id: &str) -> (r: Option<usize>)
        ensures
            match entry_index(self.entries(), id@, 0) {
                Some(k) => r matches Some(i) && i as int == k && i < self.results@.len(),
                None => r is None,
            },
    {
        proof {
            lemma_entry_index(self.entries(), id@, 0);
        }
        let mut i: usize = 0;
        while i < self.results.len()
            invariant
                i <= self.results@.len(),
                entry_index(self.entries(), id@, 0) == entry_index(self.entries(), id@, i as int),
            decreases self.results@.len() - i,
        {
            if str_eq(self.results[i].0.as_str(), id) {
                return Some(i);
            }
            i = i + 1;
        }
        None
    }

    /// The record of the given players: the reports each of them has.
    pub fn new(players: &Vec<Player>) -> (r: Self)
        ensures
            r.entries() == initial_record(players@.map_values(|p: Player| (p.player_id@, p.rs().map_values(|h: crate::round::HoleResult| h.tjing_result)))),
            ids_distinct(r.entries()),
    {
        proof {
            lemma_initial_distinct(players@.map_values(|p: Player| (p.player_id@, p.rs().map_values(|h: crate::round::HoleResult| h.tjing_result))));
        }
        let ghost views = players@.map_values(|p: Player| (p.player_id@, p.rs().map_values(|h: crate::round::HoleResult| h.tjing_result)));
        let mut map = TjingResultMap { results: Vec::new() };
        let mut i: usize = 0;
        while i < players.len()
            invariant
                i <= players@.len(),
                views == players@.map_values(|p: Player| (p.player_id@, p.rs().map_values(|h: crate::round::HoleResult| h.tjing_result))),
                map.entries() =~= initial_record(views.take(i as int)),
            decreases players@.len() - i,
        {
            proof {
                assert(views.take(i + 1).drop_last() =~= views.take(i as int));
                assert(views.take(i + 1).last() == views[i as int]);
            }
            let id = players[i].player_id.clone();
            let list = players[i].results.clone_tjing();
            let ghost before = map.entries();
            match map.find(id.as_str()) {
                Some(k) => {
                    let _ = map.results.remove(k);
                    map.results.insert(k, (id, list));
                    proof {
                        assert(map.entries() =~= before.update(k as int, (players@[i as int].player_id@, views[i as int].1)));
                    }
                },
                None => {
                    map.results.push((id, list));
                    proof {
                        assert(map.entries() =~= before.push((players@[i as int].player_id@, views[i as int].1)));
                    }
                },
            }
            i = i + 1;
        }
        proof {
            assert(views.take(players@.len() as int) =~= views);
        }
        map
    }

    /// Takes in a report of a player: a result on the same hole takes the new
    /// score, else the report is added. Says whether anything changed.
    pub fn update(&mut self, player_id: &str, hole_result: HoleResult) -> (r: bool)
        ensures
            (final(self).entries(), r) == record_update(old(self).entries(), player_id@, hole_result),
            ids_distinct(old(self).entries()) ==> ids_distinct(final(self).entries()),
    {
        proof {
            if ids_distinct(self.entries()) {
                lemma_record_update_distinct(self.entries(), player_id@, hole_result);
            }
        }
        let ghost before = self.entries();
        let k = match self.find(player_id) {
            Some(k) => k,
            None => {
                self.results.push((String::from_str(player_id), Vec::new()));
                proof {
                    assert(self.entries() =~= before.push((player_id@, seq![])));
                }
                self.results.len() - 1
            },
        };
        let ghost mid = self.entries();
        proof {
            lemma_entry_index(before, player_id@, 0);
            assert(mid[k as int].0 == player_id@);
            assert(entry_index(before, player_id@, 0) is None ==> mid[k as int].1 == Seq::<Option<HoleResult>>::empty());
        }
        let (id, mut list) = self.results.remove(k);
        let ghost list0 = list@;
        proof {
            assert(id@ == mid[k as int].0);
            assert(list0 == mid[k as int].1);
        }
        let number = #[verifier::truncate] (hole_result.hole_number as u8);
        proof {
            lemma_first_on_number(list0, number, 0);
        }
        let mut j: usize = 0;
        let mut found: Option<usize> = None;
        while j < list.len()
            invariant_except_break
                j <= list@.len(),
                list@ == list0,
                found is None,
                first_on_number(list0, number, 0) == first_on_number(list0, number, j as int),
            ensures
                list@ == list0,
                match first_on_number(list0, number, 0) {
                    Some(t) => found matches Some(f) && f as int == t && t < list0.len() && list0[t] is Some,
                    None => found is None,
                },
            decreases list@.len() - j,
        {
            let hit = match list[j] {
                Some(h) => (#[verifier::truncate] (h.hole_number as u8)) == number,
                None => false,
            };
            if hit {
                found = Some(j);
                break;
            }
            j = j + 1;
        }
        let changed = match found {
            Some(t) => {
                let old_result = list[t].unwrap();
                if old_result.score != hole_result.score {
                    list.set(t, Some(HoleResult { score: hole_result.score, ..old_result }));
                    true
                } else {
                    false
                }
            },
            None => {
                list.push(Some(hole_result));
                true
            },
        };
        let ghost id_view = id@;
        let ghost list_view = list@;
        self.results.insert(k, (id, list));
        proof {
            let (l2, c2) = list_update(list0, hole_result);
            assert(list_view =~= l2);
            assert(changed == c2);
            assert(self.entries() =~= mid.update(k as int, (player_id@, l2)));
            match entry_index(before, player_id@, 0) {
                Some(kk) => {
                    assert(mid == before);
                    assert(self.entries() =~= before.update(kk, (player_id@, l2)));
                },
                None => {
                    assert(mid =~= before.push((player_id@, seq![])));
                    assert(list0 =~= seq![]);
                    assert(self.entries() =~= before.push((player_id@, l2)));
                },
            }
        }
        changed
    }
}

impl crate::round::PlayerRound {
    /// The reports of the scoring service, hole by hole (the round stays).
    pub fn clone_tjing(&self) -> (r: Vec<Option<HoleResult>>)
        ensures
            r@ == self.results@.map_values(|h: crate::round::HoleResult| h.tjing_result),
    {
        let mut out: Vec<Option<HoleResult>> = Vec::new();
        let mut i: usize = 0;
        while i < self.results.len()
            invariant
                i <= self.results@.len(),
                out@ =~= self.results@.take(i as int).map_values(|h: crate::round::HoleResult| h.tjing_result),
            decreases self.results@.len() - i,
        {
            out.push(self.results[i].tjing_result);
            i = i + 1;
        }
        proof {
            assert(self.results@.take(self.results@.len() as int) =~= self.results@);
        }
        out
    }
}

impl TjingResultMap {
    /// Takes in the reports of a player in order; says whether anything
    /// changed.
    pub fn update_many(&mut self, player_id: &str, hole_results: Vec<HoleResult>) -> (r: bool)
        ensures
            (final(self).entries(), r) == record_update_many(old(self).entries(), player_id@, hole_results@),
            ids_distinct(old(self).entries()) ==> ids_distinct(final(self).entries()),
    {
        proof {
            if ids_distinct(self.entries()) {
                lemma_record_update_many_distinct(self.entries(), player_id@, hole_results@);
            }
        }
        let mut needs_update = false;
        let mut i: usize = 0;
        while i < hole_results.len()
            invariant
                i <= hole_results@.len(),
                (self.entries(), needs_update) == record_update_many(old(self).entries(), player_id@, hole_results@.take(i as int)),
            decreases hole_results@.len() - i,
        {
            proof {
                assert(hole_results@.take(i + 1).drop_last() =~= hole_results@.take(i as int));
                assert(hole_results@.take(i + 1).last() == hole_results@[i as int]);
            }
            if self.update(player_id, hole_results[i]) {
                needs_update = true;
            }
            i = i + 1;
        }
        proof {
            assert(hole_results@.take(hole_results@.len() as int) =~= hole_results@);
        }
        needs_update
    }

    /// Takes in the reports of all players; says whether anything changed.
    pub fn update_all_players(&mut self, players: PlayerResults) -> (r: bool)
        ensures
            (final(self).entries(), r) == record_update_all(old(self).entries(), players.view_entries()),
            ids_distinct(old(self).entries()) ==> ids_distinct(final(self).entries()),
    {
        proof {
            if ids_distinct(self.entries()) {
                lemma_record_update_all_distinct(self.entries(), players.view_entries());
            }
        }
        let ghost all = players.view_entries();
        let mut list = players.players;
        let n = list.len();
        let mut needs_update = false;
        let mut i: usize = 0;
        while i < n
            invariant
                i <= n,
                n == all.len(),
                list@.len() == n - i,
                list@.map_values(|e: (String, Vec<HoleResult>)| (e.0@, e.1@)) =~= all.subrange(i as int, n as int),
                (self.entries(), needs_update) == record_update_all(old(self).entries(), all.take(i as int)),
            decreases n - i,
        {
            proof {
                assert(all.take(i + 1).drop_last() =~= all.take(i as int));
                assert(all.take(i + 1).last() == all[i as int]);
                assert(list@.map_values(|e: (String, Vec<HoleResult>)| (e.0@, e.1@))[0] == all[i as int]);
            }
            let ghost before = list@;
            let (id, results) = list.remove(0);
            proof {
                assert(list@ =~= before.subrange(1, before.len() as int));
                let m0 = before.map_values(|e: (String, Vec<HoleResult>)| (e.0@, e.1@));
                let m1 = list@.map_values(|e: (String, Vec<HoleResult>)| (e.0@, e.1@));
                assert forall|j: int| 0 <= j < list@.len() implies #[trigger] m1[j] == all.subrange(i + 1, n as int)[j] by {
                    assert(list@[j] == before[j + 1]);
                    assert(m0[j + 1] == all.subrange(i as int, n as int)[j + 1]);
                }
                assert(list@.map_values(|e: (String, Vec<HoleResult>)| (e.0@, e.1@)) =~= all.subrange(i + 1, n as int));
            }
            if self.update_many(id.as_str(), results) {
                needs_update = true;
            }
            i = i + 1;
        }
        proof {
            assert(all.take(n as int) =~= all);
        }
        needs_update
    }

    /// Gives a player the reports recorded for them.
    pub fn update_mut_player(&self, player: &mut Player)
        requires
            ({
                let list = match entry_index(self.entries(), old(player).player_id@, 0) {
                    Some(k) => reports(self.entries()[k].1),
                    None => seq![],
                };
                tjing_fold_ok(old(player).rs(), list, old(player).holes.holes@)
            }),
        ensures
            ({
                let list = match entry_index(self.entries(), old(player).player_id@, 0) {
                    Some(k) => reports(self.entries()[k].1),
                    None => seq![],
                };
                final(player).rs() == tjing_fold(old(player).rs(), list, old(player).holes.holes@)
            }),
            crate::player::same_player(*final(player), *old(player)),
            final(player).hole_shown_up_until == old(player).hole_shown_up_until,
            final(player).throws == old(player).throws,
            final(player).round_score == old(player).round_score,
            final(player).total_score == old(player).total_score,
            final(player).first_scored == old(player).first_scored,
    {
        let mut list: Vec<HoleResult> = Vec::new();
        match self.find(player.player_id.as_str()) {
            Some(k) => {
                let entry = &self.results[k].1;
                let mut j: usize = 0;
                while j < entry.len()
                    invariant
                        j <= entry@.len(),
                        list@ =~= reports(entry@.take(j as int)),
                    decreases entry@.len() - j,
                {
                    proof {
                        assert(entry@.take(j + 1).drop_last() =~= entry@.take(j as int));
                        assert(entry@.take(j + 1).last() == entry@[j as int]);
                    }
                    match entry[j] {
                        Some(r) => list.push(r),
                        None => {},
                    }
                    j = j + 1;
                }
                proof {
                    assert(entry@.take(entry@.len() as int) =~= entry@);
                    assert(self.entries()[k as int].1 == entry@);
                }
            },
            None => {},
        }
        player.results.update_tjing(list.as_slice(), &player.holes);
    }
}

/// The index of the first player whose last hole played is the eighteenth.
pub open spec fn first_finishing(players: Seq<Player>, from: int) -> Option<int>
    decreases players.len() - from,
{
    if from < 0 || from >= players.len() {
        None
    } else if players[from].results.completion_order().len() > 0 && players[from].results.completion_order().last().hole == 18 {
        Some(from)
    } else {
        first_finishing(players, from + 1)
    }
}

/// A player who has just played the last hole of the course, if any.
pub fn finishing_player(players: &Vec<Player>) -> (r: Option<usize>)
    requires
        forall|i: int| 0 <= i < players@.len() ==> #[trigger] players@[i].results.keys_fit(),
    ensures
        match first_finishing(players@, 0) {
            Some(k) => r matches Some(i) && i as int == k,
            None => r is None,
        },
{
    let mut i: usize = 0;
    while i < players.len()
        invariant
            i <= players@.len(),
            forall|i: int| 0 <= i < players@.len() ==> #[trigger] players@[i].results.keys_fit(),
            first_finishing(players@, 0) == first_finishing(players@, i as int),
        decreases players@.len() - i,
    {
        assert(players@[i as int].results.keys_fit());
        match players[i].results.latest_hole_finished() {
            Some(h) => {
                if h.hole == 18 {
                    return Some(i);
                }
            },
            None => {},
        }
        i = i + 1;
    }
    None
}

/// The reports kept for a player in a record (none where the player has no entry).
pub open spec fn reports_for(entries: Seq<(Seq<char>, Seq<Option<HoleResult>>)>, id: Seq<char>) -> Seq<HoleResult> {
    match entry_index(entries, id, 0) {
        Some(k) => reports(entries[k].1),
        None => seq![],
    }
}

/// Whether a player's round can take the reports kept for them.
pub open spec fn can_refresh(p: Player, entries: Seq<(Seq<char>, Seq<Option<HoleResult>>)>) -> bool {
    tjing_fold_ok(p.rs(), reports_for(entries, p.player_id@), p.holes.holes@)
}

/// Whether `a` is `b` with the reports kept for it taken into its round (see
/// `TjingResultMap::update_mut_player`).
pub open spec fn refreshed(a: Player, b: Player, entries: Seq<(Seq<char>, Seq<Option<HoleResult>>)>) -> bool {
    &&& a.rs() == tjing_fold(b.rs(), reports_for(entries, b.player_id@), b.holes.holes@)
    &&& crate::player::same_player(a, b)
    &&& a.hole_shown_up_until == b.hole_shown_up_until
    &&& a.throws == b.throws
    &&& a.round_score == b.round_score
    &&& a.total_score == b.total_score
    &&& a.first_scored == b.first_scored
}

/// Whether each of `a` is the player of `b` at its index, refreshed.
pub open spec fn all_refreshed(a: Seq<Player>, b: Seq<Player>, entries: Seq<(Seq<char>, Seq<Option<HoleResult>>)>) -> bool {
    a.len() == b.len() && forall|i: int| 0 <= i < a.len() ==> #[trigger] refreshed(a[i], b[i], entries)
}

/// Takes the reports kept for each player into their round.
pub fn refresh_all(map: &TjingResultMap, players: &mut Vec<Player>)
    requires
        forall|i: int| 0 <= i < old(players)@.len() ==> #[trigger] can_refresh(old(players)@[i], map.entries()),
    ensures
        all_refreshed(final(players)@, old(players)@, map.entries()),
{
    let n = players.len();
    let mut i: usize = 0;
    while i < n
        invariant
            i <= n,
            n == old(players)@.len(),
            players@.len() == n,
            forall|j: int| 0 <= j < n ==> #[trigger] can_refresh(old(players)@[j], map.entries()),
            forall|j: int| i <= j < n ==> #[trigger] players@[j] == old(players)@[j],
            forall|j: int| 0 <= j < i ==> #[trigger] refreshed(players@[j], old(players)@[j], map.entries()),
        decreases n - i,
    {
        assert(can_refresh(old(players)@[i as int], map.entries()));
        map.update_mut_player(&mut players[i]);
        i = i + 1;
    }
}

} // verus!
